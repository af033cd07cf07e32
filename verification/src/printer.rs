use vstd::prelude::*;

use crate::chars::{parse_u16, spec_parse_u16, spec_trim, str_chars, trim_chars};
use crate::models::{
    Align, BarcodeSymbology, Block, Column, ColumnWidth, ErrorCode, ErrorView, EscposError,
    PrintDocument, PrinterBackend, PrinterInfo, PrinterTarget, TextStyle,
};
use crate::models::device::{network_path, spec_to_target, target_outcome};
use crate::render::{rasters_fit, render_with_graphics, spec_render_plan, RasterView, RenderPlan};
use crate::text::{chars_to_string, slice_chars};

verus! {

/// How images and barcodes reach the printer: with the escpos commands of a real printer, or
/// as raster bitmaps that a local emulator understands.
#[derive(Clone, Copy, Debug, PartialEq, Eq, Structural)]
pub enum GraphicsBackend {
    Escpos,
    Emulator,
}

/// The error for a USB printer on a system without the Windows USB print driver.
pub fn unsupported_platform() -> (r: EscposError)
    ensures
        r.code == ErrorCode::UnsupportedPlatform,
        r.message@ == "Windows USB printing is only available on Windows"@,
{
    EscposError::new(ErrorCode::UnsupportedPlatform, "Windows USB printing is only available on Windows")
}

/// The host names of an emulator on this machine.
pub open spec fn spec_is_local_emulator_host(host: Seq<char>) -> bool {
    host == "127.0.0.1"@ || host == "localhost"@ || host == "::1"@
}

/// Whether `host` names this machine (`127.0.0.1`, `localhost` or `::1`).
pub fn is_local_emulator_host(host: &str) -> (r: bool)
    ensures
        r == spec_is_local_emulator_host(host@),
{
    let h = String::from_str(host);
    h == String::from_str("127.0.0.1") || h == String::from_str("localhost") || h
        == String::from_str("::1")
}

/// The backend for a target: the emulator one for a network printer on this machine.
pub open spec fn spec_graphics_backend_for(target: PrinterTarget) -> GraphicsBackend {
    match target {
        PrinterTarget::Network { host, .. } => if spec_is_local_emulator_host(host@) {
            GraphicsBackend::Emulator
        } else {
            GraphicsBackend::Escpos
        },
        _ => GraphicsBackend::Escpos,
    }
}

pub fn graphics_backend_for(target: &PrinterTarget) -> (r: GraphicsBackend)
    ensures
        r == spec_graphics_backend_for(*target),
{
    match target {
        PrinterTarget::Network { host, .. } => if is_local_emulator_host(host.as_str()) {
            GraphicsBackend::Emulator
        } else {
            GraphicsBackend::Escpos
        },
        _ => GraphicsBackend::Escpos,
    }
}


// ---------------------------------------------------------------------------------------------
// Network printers.

/// Where the last `:` of `s` stands, if any.
pub open spec fn last_colon(s: Seq<char>) -> Option<int>
    decreases s.len(),
{
    if s.len() == 0 {
        None
    } else if s.last() == ':' {
        Some(s.len() - 1)
    } else {
        last_colon(s.drop_last())
    }
}

/// `host:port` read as a host and a port: the host is what stands before the last colon and
/// must not be empty, the port what follows it and must be a non-zero `u16`.
pub open spec fn spec_parse_host_port(s: Seq<char>) -> Option<(Seq<char>, u16)> {
    match last_colon(s) {
        None => None,
        Some(k) => {
            let host = s.take(k);
            if host.len() == 0 {
                None
            } else {
                match spec_parse_u16(s.skip(k + 1)) {
                    Some(p) => if p != 0 {
                        Some((host, p))
                    } else {
                        None
                    },
                    None => None,
                }
            }
        },
    }
}

proof fn lemma_last_colon(s: Seq<char>, k: int)
    requires
        -1 <= k < s.len(),
        forall|j: int| k < j < s.len() ==> s[j] != ':',
        k >= 0 ==> s[k] == ':',
    ensures
        k >= 0 ==> last_colon(s) == Some(k),
        k == -1 ==> last_colon(s) is None,
    decreases s.len(),
{
    if s.len() > 0 && k < s.len() - 1 {
        lemma_last_colon(s.drop_last(), k);
    }
}

/// An endpoint as host characters and port.
pub open spec fn endpoint_view(e: (String, u16)) -> (Seq<char>, u16) {
    (e.0@, e.1)
}

pub open spec fn endpoints_view(v: Seq<(String, u16)>) -> Seq<(Seq<char>, u16)> {
    v.map_values(|e: (String, u16)| endpoint_view(e))
}

fn parse_host_port_chars(chars: &Vec<char>) -> (r: Option<(String, u16)>)
    ensures
        match r {
            None => spec_parse_host_port(chars@) is None,
            Some(e) => spec_parse_host_port(chars@) == Some(endpoint_view(e)),
        },
{
    let n = chars.len();
    let mut k: usize = n;
    while k > 0 && chars[k - 1] != ':'
        invariant
            k <= n == chars@.len(),
            forall|j: int| k <= j < n ==> chars@[j] != ':',
        decreases k,
    {
        k = k - 1;
    }
    proof {
        lemma_last_colon(chars@, k - 1);
    }
    if k == 0 {
        return None;
    }
    let colon = k - 1;
    if colon == 0 {
        assert(chars@.take(0).len() == 0);
        return None;
    }
    let host = slice_chars(chars, 0, colon);
    let port_chars = slice_chars(chars, colon + 1, n);
    assert(host@ =~= chars@.take(colon as int));
    assert(port_chars@ =~= chars@.skip(colon + 1));
    match parse_u16(&port_chars) {
        Some(p) => {
            if p == 0 {
                None
            } else {
                Some((chars_to_string(&host), p))
            }
        },
        None => None,
    }
}

/// The host and the port of `host:port`, if both are there and the port is a non-zero number.
pub fn parse_host_port(value: &str) -> (r: Option<(String, u16)>)
    ensures
        match r {
            None => spec_parse_host_port(value@) is None,
            Some(e) => spec_parse_host_port(value@) == Some(endpoint_view(e)),
        },
{
    let chars = str_chars(value);
    parse_host_port_chars(&chars)
}

/// Pieces of a text cut at its commas, scanned so far: the finished pieces and the one in
/// progress.
pub open spec fn commas_scan(s: Seq<char>) -> (Seq<Seq<char>>, Seq<char>)
    decreases s.len(),
{
    if s.len() == 0 {
        (seq![], seq![])
    } else {
        let (done, cur) = commas_scan(s.drop_last());
        if s.last() == ',' {
            (done.push(cur), seq![])
        } else {
            (done, cur.push(s.last()))
        }
    }
}

/// The pieces of `s` between commas (`str::split(',')`), empty ones included.
pub open spec fn split_commas(s: Seq<char>) -> Seq<Seq<char>> {
    let (done, cur) = commas_scan(s);
    done.push(cur)
}

/// The endpoints that the pieces name, each trimmed; pieces that are not `host:port` are left
/// out.
pub open spec fn endpoints_of_pieces(pieces: Seq<Seq<char>>) -> Seq<(Seq<char>, u16)>
    decreases pieces.len(),
{
    if pieces.len() == 0 {
        seq![]
    } else {
        let rest = endpoints_of_pieces(pieces.drop_last());
        match spec_parse_host_port(spec_trim(pieces.last())) {
            Some(e) => rest.push(e),
            None => rest,
        }
    }
}

/// The endpoints of a comma-separated list of `host:port` entries.
pub open spec fn spec_parse_network_printers(value: Seq<char>) -> Seq<(Seq<char>, u16)> {
    endpoints_of_pieces(split_commas(value))
}

fn push_endpoint(out: &mut Vec<(String, u16)>, piece: &Vec<char>, Ghost(pieces): Ghost<Seq<Seq<char>>>)
    requires
        pieces.len() > 0,
        pieces.last() == piece@,
        endpoints_view(old(out)@) == endpoints_of_pieces(pieces.drop_last()),
    ensures
        endpoints_view(final(out)@) == endpoints_of_pieces(pieces),
{
    let trimmed = trim_chars(piece);
    match parse_host_port_chars(&trimmed) {
        Some(e) => {
            let ghost before = endpoints_view(out@);
            let ghost ev = endpoint_view(e);
            out.push(e);
            assert(endpoints_view(out@) =~= before.push(ev));
        },
        None => {},
    }
}

/// The endpoints of a comma-separated list of `host:port` entries (the value of the setting
/// that names network printers); entries that are not `host:port` are skipped.
pub fn parse_network_printers(value: &str) -> (r: Vec<(String, u16)>)
    ensures
        endpoints_view(r@) == spec_parse_network_printers(value@),
{
    let chars = str_chars(value);
    let mut out: Vec<(String, u16)> = Vec::new();
    let mut cur: Vec<char> = Vec::new();
    let ghost mut done: Seq<Seq<char>> = seq![];
    let mut i: usize = 0;
    while i < chars.len()
        invariant
            i <= chars@.len(),
            chars@ == value@,
            (done, cur@) == commas_scan(chars@.take(i as int)),
            endpoints_view(out@) == endpoints_of_pieces(done),
        decreases chars@.len() - i,
    {
        let c = chars[i];
        proof {
            assert(chars@.take(i + 1).drop_last() =~= chars@.take(i as int));
        }
        if c == ',' {
            proof {
                assert(done.push(cur@).drop_last() =~= done);
            }
            push_endpoint(&mut out, &cur, Ghost(done.push(cur@)));
            proof {
                done = done.push(cur@);
            }
            cur = Vec::new();
        } else {
            cur.push(c);
        }
        i = i + 1;
    }
    assert(chars@.take(i as int) =~= chars@);
    proof {
        assert(done.push(cur@).drop_last() =~= done);
    }
    push_endpoint(&mut out, &cur, Ghost(done.push(cur@)));
    out
}

/// Whether the list holds the local emulator endpoint, `127.0.0.1:9100`.
pub open spec fn spec_has_default_emulator(endpoints: Seq<(Seq<char>, u16)>) -> bool {
    exists|i: int|
        0 <= i < endpoints.len() && #[trigger] endpoints[i] == ("127.0.0.1"@, 9100u16)
}

/// Whether the list already names the local emulator endpoint, `127.0.0.1:9100`.
pub fn has_default_emulator(endpoints: &Vec<(String, u16)>) -> (r: bool)
    ensures
        r == spec_has_default_emulator(endpoints_view(endpoints@)),
{
    let local = String::from_str("127.0.0.1");
    let mut i: usize = 0;
    while i < endpoints.len()
        invariant
            i <= endpoints@.len(),
            local@ == "127.0.0.1"@,
            forall|j: int|
                0 <= j < i ==> #[trigger] endpoints_view(endpoints@)[j] != ("127.0.0.1"@, 9100u16),
        decreases endpoints@.len() - i,
    {
        if endpoints[i].0 == local && endpoints[i].1 == 9100 {
            assert(endpoints_view(endpoints@)[i as int] == ("127.0.0.1"@, 9100u16));
            return true;
        }
        i = i + 1;
    }
    false
}

/// The configured endpoints, then the local emulator when it is to be included and is not
/// configured already.
pub open spec fn spec_network_endpoints(
    configured: Seq<(Seq<char>, u16)>,
    include_default: bool,
) -> Seq<(Seq<char>, u16)> {
    if !spec_has_default_emulator(configured) && include_default {
        configured.push(("127.0.0.1"@, 9100u16))
    } else {
        configured
    }
}

/// The network endpoints to list: the configured ones, and the local emulator
/// (`127.0.0.1:9100`) if `include_default_emulator` says so (a debug build, or an emulator that
/// answers) and it is not configured already.
pub fn network_endpoints(configured: Vec<(String, u16)>, include_default_emulator: bool) -> (r: Vec<
    (String, u16),
>)
    ensures
        endpoints_view(r@) == spec_network_endpoints(
            endpoints_view(configured@),
            include_default_emulator,
        ),
{
    let mut endpoints = configured;
    if !has_default_emulator(&endpoints) && include_default_emulator {
        let ghost before = endpoints_view(endpoints@);
        let local = String::from_str("127.0.0.1");
        endpoints.push((local, 9100));
        assert(endpoints_view(endpoints@) =~= before.push(("127.0.0.1"@, 9100u16)));
    }
    endpoints
}

/// `info` is the entry that `PrinterInfo::network` makes for the endpoint.
pub open spec fn is_network_entry(info: PrinterInfo, endpoint: (Seq<char>, u16)) -> bool {
    let path = network_path(endpoint.0, endpoint.1);
    &&& info.path@ == path
    &&& info.id@ == "network:"@ + path
    &&& info.name matches Some(n) && n@ == "ESC/POS network ("@ + path + ")"@
    &&& info.vendor_id is None
    &&& info.product_id is None
    &&& info.host matches Some(h) && h@ == endpoint.0
    &&& info.port == Some(endpoint.1)
    &&& info.backend == PrinterBackend::Network
}

/// One entry per endpoint, in order.
pub fn list_network_printers(endpoints: Vec<(String, u16)>) -> (r: Vec<PrinterInfo>)
    ensures
        r@.len() == endpoints@.len(),
        forall|i: int|
            0 <= i < r@.len() ==> is_network_entry(
                #[trigger] r@[i],
                endpoints_view(endpoints@)[i],
            ),
{
    let mut out: Vec<PrinterInfo> = Vec::new();
    let mut i: usize = 0;
    while i < endpoints.len()
        invariant
            i <= endpoints@.len(),
            out@.len() == i,
            forall|k: int|
                0 <= k < i ==> is_network_entry(#[trigger] out@[k], endpoints_view(endpoints@)[k]),
        decreases endpoints@.len() - i,
    {
        let host = endpoints[i].0.clone();
        let info = PrinterInfo::network(host, endpoints[i].1);
        out.push(info);
        i = i + 1;
    }
    out
}

/// The entry of a USB printer found at the device interface `device_path`: the path is both its
/// id and its path, with the USB identifiers read from it, no name and no network address.
pub fn usb_printer_entry(
    device_path: String,
    vendor_id: Option<u16>,
    product_id: Option<u16>,
) -> (r: PrinterInfo)
    ensures
        r.id == device_path,
        r.path == device_path,
        r.name is None,
        r.vendor_id == vendor_id,
        r.product_id == product_id,
        r.host is None,
        r.port is None,
        r.backend == PrinterBackend::WindowsUsb,
{
    PrinterInfo {
        id: device_path.clone(),
        path: device_path,
        name: None,
        vendor_id,
        product_id,
        host: None,
        port: None,
        backend: PrinterBackend::WindowsUsb,
    }
}

/// All printers: the USB printers found, then one network entry per endpoint (see
/// `spec_network_endpoints`).
pub fn list_printers(
    usb_printers: Vec<PrinterInfo>,
    configured: Vec<(String, u16)>,
    include_default_emulator: bool,
) -> (r: Vec<PrinterInfo>)
    ensures
        ({
            let endpoints = spec_network_endpoints(
                endpoints_view(configured@),
                include_default_emulator,
            );
            &&& r@.len() == usb_printers@.len() + endpoints.len()
            &&& r@.take(usb_printers@.len() as int) == usb_printers@
            &&& forall|i: int|
                0 <= i < endpoints.len() ==> is_network_entry(
                    #[trigger] r@[usb_printers@.len() + i],
                    endpoints[i],
                )
        }),
{
    let endpoints = network_endpoints(configured, include_default_emulator);
    let network = list_network_printers(endpoints);
    let mut printers = usb_printers;
    let ghost usb = printers@;
    let ghost net = network@;
    let mut network = network;
    printers.append(&mut network);
    assert(printers@ =~= usb + net);
    assert(printers@.take(usb.len() as int) =~= usb);
    printers
}

// ---------------------------------------------------------------------------------------------
// Self test.

/// The first network printer of the list, else the first printer, if any.
pub open spec fn self_test_choice(printers: Seq<PrinterInfo>) -> Option<int> {
    if exists|i: int|
        0 <= i < printers.len() && #[trigger] printers[i].backend == PrinterBackend::Network {
        Some(
            choose|i: int|
                0 <= i < printers.len() && printers[i].backend == PrinterBackend::Network && forall|
                    j: int,
                |
                    0 <= j < i ==> #[trigger] printers[j].backend != PrinterBackend::Network,
        )
    } else if printers.len() > 0 {
        Some(0)
    } else {
        None
    }
}

/// The printer that the self test prints on: the first network printer, else the first one;
/// with no printer at all, `PrinterNotFound`.
pub fn self_test(printers: &Vec<PrinterInfo>) -> (r: Result<PrinterTarget, EscposError>)
    ensures
        match self_test_choice(printers@) {
            Some(k) => target_outcome(r) == spec_to_target(printers@[k]),
            None => r matches Err(e) && e.code == ErrorCode::PrinterNotFound && e.message@
                == "No ESC/POS printer was found. Start a TCP emulator on 127.0.0.1:9100 or connect a USB printer."@,
        },
{
    let mut i: usize = 0;
    while i < printers.len()
        invariant
            i <= printers@.len(),
            forall|j: int| 0 <= j < i ==> #[trigger] printers@[j].backend != PrinterBackend::Network,
        decreases printers@.len() - i,
    {
        if matches!(printers[i].backend, PrinterBackend::Network) {
            proof {
                assert(printers@[i as int].backend == PrinterBackend::Network);
                let k = choose|k: int|
                    0 <= k < printers@.len() && printers@[k].backend == PrinterBackend::Network
                        && forall|j: int|
                        0 <= j < k ==> #[trigger] printers@[j].backend != PrinterBackend::Network;
                assert(k == i) by {
                    if k < i {
                        assert(printers@[k].backend != PrinterBackend::Network);
                    } else if k > i {
                        assert(printers@[i as int].backend != PrinterBackend::Network);
                    }
                }
            }
            return printers[i].to_target();
        }
        i = i + 1;
    }
    if printers.len() == 0 {
        return Err(
            EscposError::new(
                ErrorCode::PrinterNotFound,
                "No ESC/POS printer was found. Start a TCP emulator on 127.0.0.1:9100 or connect a USB printer.",
            ),
        );
    }
    printers[0].to_target()
}


// ---------------------------------------------------------------------------------------------
// Test receipt.

/// The test receipt: a bold centred title, a `=` divider, a row naming the character set
/// (the second column taking 0.3 of the line: 10 characters on 58 mm, 14 on 80 mm), the EAN-13
/// barcode of `123456789012` with its digits, a feed of two lines and a full cut; default paper
/// and character set.
pub open spec fn is_test_document(d: PrintDocument) -> bool {
    &&& d.paper_width_mm is None
    &&& d.character_set is None
    &&& d.blocks@.len() == 6
    &&& d.blocks@[0] matches Block::Text { value, style } && value@ == "ESC/POS PRINTER TEST"@
        && style == Some(
        TextStyle { bold: Some(true), underline: None, size: None, align: Some(Align::Center) },
    )
    &&& d.blocks@[1] matches Block::Divider { character: Some(c) } && c@ == "="@
    &&& d.blocks@[2] matches Block::Columns { columns, widths_exceed_line } && !widths_exceed_line
        && columns@.len() == 2 && columns@[0].text@ == "Character set"@ && columns@[0].width is None
        && columns@[0].align is None && columns@[0].style is None && columns@[1].text@ == "PC858"@
        && columns@[1].width == Some(ColumnWidth { valid: true, cells_58mm: 10, cells_80mm: 14 })
        && columns@[1].align == Some(Align::Right) && columns@[1].style is None
    &&& d.blocks@[3] matches Block::Barcode { value, symbology, align, print_value } && value@
        == "123456789012"@ && symbology == BarcodeSymbology::Ean13 && align == Some(Align::Center)
        && print_value == Some(true)
    &&& d.blocks@[4] matches Block::Feed { lines } && lines == Some(2u8)
    &&& d.blocks@[5] matches Block::Cut { partial } && partial == Some(false)
}

/// The document of the printer test.
pub fn test_document() -> (r: PrintDocument)
    ensures
        is_test_document(r),
{
    let mut columns: Vec<Column> = Vec::new();
    columns.push(
        Column { text: String::from_str("Character set"), width: None, align: None, style: None },
    );
    columns.push(
        Column {
            text: String::from_str("PC858"),
            width: Some(ColumnWidth { valid: true, cells_58mm: 10, cells_80mm: 14 }),
            align: Some(Align::Right),
            style: None,
        },
    );
    let mut blocks: Vec<Block> = Vec::new();
    blocks.push(
        Block::Text {
            value: String::from_str("ESC/POS PRINTER TEST"),
            style: Some(
                TextStyle { bold: Some(true), underline: None, size: None, align: Some(Align::Center) },
            ),
        },
    );
    blocks.push(Block::Divider { character: Some(String::from_str("=")) });
    blocks.push(Block::Columns { columns, widths_exceed_line: false });
    blocks.push(
        Block::Barcode {
            value: String::from_str("123456789012"),
            symbology: BarcodeSymbology::Ean13,
            align: Some(Align::Center),
            print_value: Some(true),
        },
    );
    blocks.push(Block::Feed { lines: Some(2) });
    blocks.push(Block::Cut { partial: Some(false) });
    PrintDocument { paper_width_mm: None, character_set: None, blocks }
}

/// What printing the test receipt on `target` takes, with the graphics backend of the target.
pub fn test_printer(target: &PrinterTarget) -> (r: RenderPlan)
    ensures
        exists|d: PrintDocument, rasters: Seq<RasterView>|
            is_test_document(d) && rasters_fit(d.blocks@, spec_graphics_backend_for(*target), rasters)
                && r@ == #[trigger] spec_render_plan(d, spec_graphics_backend_for(*target), rasters),
{
    let document = test_document();
    let plan = render_with_graphics(&document, graphics_backend_for(target));
    plan
}

} // verus!
