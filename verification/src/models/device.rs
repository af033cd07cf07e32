use vstd::prelude::*;

use crate::chars::{decimal, decimal_string};

verus! {

/// Stable error categories.
#[derive(Debug, Clone, Copy, PartialEq, Eq, Structural)]
pub enum ErrorCode {
    UnsupportedPlatform,
    PrinterNotFound,
    OpenFailed,
    InvalidDocument,
    PrintFailed,
}

/// An error with a stable code and an English message.
#[derive(Debug, Clone, PartialEq, Eq)]
pub struct EscposError {
    pub code: ErrorCode,
    pub message: String,
}

/// An error as its code and message.
pub type ErrorView = (ErrorCode, Seq<char>);

impl View for EscposError {
    type V = ErrorView;

    open spec fn view(&self) -> ErrorView {
        (self.code, self.message@)
    }
}

impl EscposError {
    pub fn new(code: ErrorCode, message: &str) -> (r: EscposError)
        ensures
            r.code == code,
            r.message@ == message@,
    {
        EscposError { code, message: String::from_str(message) }
    }

    /// An error of code `InvalidDocument`.
    pub fn invalid_document(message: &str) -> (r: EscposError)
        ensures
            r.code == ErrorCode::InvalidDocument,
            r.message@ == message@,
    {
        EscposError::new(ErrorCode::InvalidDocument, message)
    }
}


/// Where a printer is reached.
#[derive(Debug, Clone, PartialEq, Eq)]
pub enum PrinterTarget {
    WindowsUsbByPath { path: String },
    WindowsUsbByVidPid { vendor_id: u16, product_id: u16 },
    Network { host: String, port: u16 },
}

/// Kind of connection to a printer.
#[derive(Debug, Clone, Copy, PartialEq, Eq, Structural)]
pub enum PrinterBackend {
    WindowsUsb,
    Network,
}

/// The flat record in which a target travels: a kind and the fields of that kind.
#[derive(Debug, Clone)]
pub struct PrinterTargetWire {
    pub kind: PrinterBackend,
    pub path: Option<String>,
    pub vendor_id: Option<u16>,
    pub product_id: Option<u16>,
    pub host: Option<String>,
    pub port: Option<u16>,
}

/// The record written for a target.
pub open spec fn spec_target_wire(t: PrinterTarget) -> PrinterTargetWire {
    match t {
        PrinterTarget::WindowsUsbByPath { path } => PrinterTargetWire {
            kind: PrinterBackend::WindowsUsb,
            path: Some(path),
            vendor_id: None,
            product_id: None,
            host: None,
            port: None,
        },
        PrinterTarget::WindowsUsbByVidPid { vendor_id, product_id } => PrinterTargetWire {
            kind: PrinterBackend::WindowsUsb,
            path: None,
            vendor_id: Some(vendor_id),
            product_id: Some(product_id),
            host: None,
            port: None,
        },
        PrinterTarget::Network { host, port } => PrinterTargetWire {
            kind: PrinterBackend::Network,
            path: None,
            vendor_id: None,
            product_id: None,
            host: Some(host),
            port: Some(port),
        },
    }
}

/// The target a record stands for, or the message that refuses it.
pub open spec fn spec_target_from_wire(w: PrinterTargetWire) -> Result<PrinterTarget, Seq<char>> {
    match w.kind {
        PrinterBackend::WindowsUsb => match (w.path, w.vendor_id, w.product_id) {
            (Some(path), None, None) if path@.len() != 0 => Ok(
                PrinterTarget::WindowsUsbByPath { path },
            ),
            (None, Some(vendor_id), Some(product_id)) => Ok(
                PrinterTarget::WindowsUsbByVidPid { vendor_id, product_id },
            ),
            _ => Err("windows_usb target requires either path or vendorId and productId"@),
        },
        PrinterBackend::Network => match (w.host, w.port) {
            (Some(host), Some(port)) if host@.len() != 0 && port != 0 => Ok(
                PrinterTarget::Network { host, port },
            ),
            _ => Err("network target requires host and a non-zero port"@),
        },
    }
}

/// A target that its record can carry back: a non-empty path, or a non-empty host and a
/// non-zero port.
pub open spec fn target_is_addressable(t: PrinterTarget) -> bool {
    match t {
        PrinterTarget::WindowsUsbByPath { path } => path@.len() != 0,
        PrinterTarget::WindowsUsbByVidPid { .. } => true,
        PrinterTarget::Network { host, port } => host@.len() != 0 && port != 0,
    }
}

impl PrinterTarget {
    /// The record written for this target.
    pub fn to_wire(&self) -> (r: PrinterTargetWire)
        ensures
            r == spec_target_wire(*self),
    {
        match self {
            PrinterTarget::WindowsUsbByPath { path } => PrinterTargetWire {
                kind: PrinterBackend::WindowsUsb,
                path: Some(path.clone()),
                vendor_id: None,
                product_id: None,
                host: None,
                port: None,
            },
            PrinterTarget::WindowsUsbByVidPid { vendor_id, product_id } => PrinterTargetWire {
                kind: PrinterBackend::WindowsUsb,
                path: None,
                vendor_id: Some(*vendor_id),
                product_id: Some(*product_id),
                host: None,
                port: None,
            },
            PrinterTarget::Network { host, port } => PrinterTargetWire {
                kind: PrinterBackend::Network,
                path: None,
                vendor_id: None,
                product_id: None,
                host: Some(host.clone()),
                port: Some(*port),
            },
        }
    }

    /// The target that a record stands for; a record that names neither a path nor both USB
    /// identifiers, or a network record without a host or with port 0, is refused.
    pub fn from_wire(wire: PrinterTargetWire) -> (r: Result<PrinterTarget, String>)
        ensures
            r matches Ok(t) ==> spec_target_from_wire(wire) == Ok::<PrinterTarget, Seq<char>>(t),
            r matches Err(m) ==> spec_target_from_wire(wire) == Err::<PrinterTarget, Seq<char>>(
                m@,
            ),
    {
        match wire.kind {
            PrinterBackend::WindowsUsb => match (wire.path, wire.vendor_id, wire.product_id) {
                (Some(path), None, None) => {
                    if path.as_str().is_empty() {
                        Err(
                            String::from_str(
                                "windows_usb target requires either path or vendorId and productId",
                            ),
                        )
                    } else {
                        Ok(PrinterTarget::WindowsUsbByPath { path })
                    }
                },
                (None, Some(vendor_id), Some(product_id)) => Ok(
                    PrinterTarget::WindowsUsbByVidPid { vendor_id, product_id },
                ),
                _ => Err(
                    String::from_str(
                        "windows_usb target requires either path or vendorId and productId",
                    ),
                ),
            },
            PrinterBackend::Network => match (wire.host, wire.port) {
                (Some(host), Some(port)) => {
                    if host.as_str().is_empty() || port == 0 {
                        Err(String::from_str("network target requires host and a non-zero port"))
                    } else {
                        Ok(PrinterTarget::Network { host, port })
                    }
                },
                _ => Err(String::from_str("network target requires host and a non-zero port")),
            },
        }
    }
}

/// A printer found on this machine or configured for the network.
#[derive(Debug, Clone)]
pub struct PrinterInfo {
    pub id: String,
    pub path: String,
    pub name: Option<String>,
    pub vendor_id: Option<u16>,
    pub product_id: Option<u16>,
    pub host: Option<String>,
    pub port: Option<u16>,
    pub backend: PrinterBackend,
}

/// The target of a printer entry, or the error that refuses it.
pub open spec fn spec_to_target(info: PrinterInfo) -> Result<PrinterTarget, ErrorView> {
    match info.backend {
        PrinterBackend::WindowsUsb => Ok(PrinterTarget::WindowsUsbByPath { path: info.path }),
        PrinterBackend::Network => match info.host {
            Some(h) if h@.len() != 0 => match info.port {
                Some(p) if p != 0 => Ok(PrinterTarget::Network { host: h, port: p }),
                _ => Err((ErrorCode::PrinterNotFound, "Network printer is missing a port"@)),
            },
            _ => Err((ErrorCode::PrinterNotFound, "Network printer is missing a host"@)),
        },
    }
}

/// A target outcome with its error as a view.
pub open spec fn target_outcome(r: Result<PrinterTarget, EscposError>) -> Result<
    PrinterTarget,
    ErrorView,
> {
    match r {
        Ok(t) => Ok(t),
        Err(e) => Err(e@),
    }
}

/// `host:port`, the path of a network printer.
pub open spec fn network_path(host: Seq<char>, port: u16) -> Seq<char> {
    host + ":"@ + decimal(port as nat)
}

impl PrinterInfo {
    /// The entry of a TCP printer at `host:port`.
    pub fn network(host: String, port: u16) -> (r: PrinterInfo)
        ensures
            r.path@ == network_path(host@, port),
            r.id@ == "network:"@ + network_path(host@, port),
            r.name matches Some(n) && n@ == "ESC/POS network ("@ + network_path(host@, port)
                + ")"@,
            r.vendor_id is None,
            r.product_id is None,
            r.host == Some(host),
            r.port == Some(port),
            r.backend == PrinterBackend::Network,
    {
        let digits = decimal_string(port as u32);
        let mut path = host.clone();
        path.append(":");
        path.append(digits.as_str());
        let mut id = String::from_str("network:");
        id.append(path.as_str());
        let mut name = String::from_str("ESC/POS network (");
        name.append(path.as_str());
        name.append(")");
        PrinterInfo {
            id,
            path,
            name: Some(name),
            vendor_id: None,
            product_id: None,
            host: Some(host),
            port: Some(port),
            backend: PrinterBackend::Network,
        }
    }

    /// The target to print to: a USB entry by its path; a network entry by its host and port,
    /// refused as `PrinterNotFound` when the host is missing or empty or the port is missing or 0.
    pub fn to_target(&self) -> (r: Result<PrinterTarget, EscposError>)
        ensures
            target_outcome(r) == spec_to_target(*self),
    {
        match self.backend {
            PrinterBackend::WindowsUsb => Ok(PrinterTarget::WindowsUsbByPath { path: self.path.clone() }),
            PrinterBackend::Network => {
                let host = match &self.host {
                    Some(h) => {
                        if h.as_str().is_empty() {
                            return Err(
                                EscposError::new(
                                    ErrorCode::PrinterNotFound,
                                    "Network printer is missing a host",
                                ),
                            );
                        }
                        h.clone()
                    },
                    None => {
                        return Err(
                            EscposError::new(
                                ErrorCode::PrinterNotFound,
                                "Network printer is missing a host",
                            ),
                        );
                    },
                };
                match self.port {
                    Some(p) => {
                        if p == 0 {
                            return Err(
                                EscposError::new(
                                    ErrorCode::PrinterNotFound,
                                    "Network printer is missing a port",
                                ),
                            );
                        }
                        Ok(PrinterTarget::Network { host, port: p })
                    },
                    None => Err(
                        EscposError::new(
                            ErrorCode::PrinterNotFound,
                            "Network printer is missing a port",
                        ),
                    ),
                }
            },
        }
    }
}

} // verus!
