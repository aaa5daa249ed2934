//! What is told of a device as a whole.

use crate::catalog::DeviceCatalog;
use crate::client::access::{ReadResult, ReadResultView};
use crate::client::error::{client_error_text, ClientError, ClientErrorView};
use crate::csv_output::{raw_text, raw_value};
use crate::model::{oid_text, OidView, ParameterOid, ParameterView};
use crate::text::{concat, decimal, decimal_text, push_line, same};
use crate::views::{option_view, result_view, views};
use vstd::prelude::*;
use vstd::string::*;

verus! {

/// The OID of the parameter that names the product.
pub const PRODUCT_OID: u16 = 0x0105;

/// The OID of the parameter that names the revision of the software.
pub const SOFTWARE_OID: u16 = 0x010B;

/// The OID of the parameter that names the supplier.
pub const SUPPLIER_OID: u16 = 0x0102;

/// The OID of the parameter that holds the serial number.
pub const SERIAL_OID: u16 = 0x0106;

/// A field that could not be read.
#[derive(Debug)]
pub struct InfoWarning {
    pub field: &'static str,
    pub oid: ParameterOid,
    pub message: String,
}

/// The value of an `InfoWarning`.
pub struct WarningView {
    pub field: Seq<char>,
    pub oid: OidView,
    pub message: Seq<char>,
}

impl View for InfoWarning {
    type V = WarningView;

    open spec fn view(&self) -> WarningView {
        WarningView { field: self.field@, oid: self.oid@, message: self.message@ }
    }
}

/// What is told of a device.
#[derive(Debug)]
pub struct DeviceInfo {
    pub host: String,
    pub slot: u8,
    pub product_name: Option<String>,
    pub software_revision: Option<String>,
    pub supplier_name: Option<String>,
    pub serial_number: Option<String>,
    pub numeric_parameters: usize,
    pub string_parameters: usize,
    pub total_parameters: usize,
    pub warnings: Vec<InfoWarning>,
}

/// The value of a `DeviceInfo`.
pub struct InfoView {
    pub host: Seq<char>,
    pub slot: u8,
    pub product_name: Option<Seq<char>>,
    pub software_revision: Option<Seq<char>>,
    pub supplier_name: Option<Seq<char>>,
    pub serial_number: Option<Seq<char>>,
    pub numeric_parameters: nat,
    pub string_parameters: nat,
    pub total_parameters: nat,
    pub warnings: Seq<WarningView>,
}

impl View for DeviceInfo {
    type V = InfoView;

    open spec fn view(&self) -> InfoView {
        InfoView {
            host: self.host@,
            slot: self.slot,
            product_name: option_view(self.product_name),
            software_revision: option_view(self.software_revision),
            supplier_name: option_view(self.supplier_name),
            serial_number: option_view(self.serial_number),
            numeric_parameters: self.numeric_parameters as nat,
            string_parameters: self.string_parameters as nat,
            total_parameters: self.total_parameters as nat,
            warnings: views(self.warnings@),
        }
    }
}

/// How many of the parameters have a numeric OID.
pub open spec fn numeric_count(parameters: Seq<ParameterView>) -> nat
    decreases parameters.len(),
{
    if parameters.len() == 0 {
        0
    } else {
        numeric_count(parameters.drop_last()) + if parameters.last().oid is Numeric {
            1nat
        } else {
            0nat
        }
    }
}

/// The fields of a device that were read, the warnings about those that were not, and how many
/// parameters it has of each kind.
pub open spec fn info_of(
    parameters: Seq<ParameterView>,
    host: Seq<char>,
    slot: u8,
    product_name: Option<Seq<char>>,
    software_revision: Option<Seq<char>>,
    supplier_name: Option<Seq<char>>,
    serial_number: Option<Seq<char>>,
    warnings: Seq<WarningView>,
) -> InfoView {
    InfoView {
        host,
        slot,
        product_name,
        software_revision,
        supplier_name,
        serial_number,
        numeric_parameters: numeric_count(parameters),
        string_parameters: (parameters.len() - numeric_count(parameters)) as nat,
        total_parameters: parameters.len(),
        warnings,
    }
}

/// The fields of a device that were read, the warnings about those that were not, and how many
/// parameters it has of each kind.
pub fn device_info(
    catalog: &DeviceCatalog,
    host: String,
    slot: u8,
    product_name: Option<String>,
    software_revision: Option<String>,
    supplier_name: Option<String>,
    serial_number: Option<String>,
    warnings: Vec<InfoWarning>,
) -> (r: DeviceInfo)
    ensures
        r@ == info_of(
            catalog@.parameters,
            host@,
            slot,
            option_view(product_name),
            option_view(software_revision),
            option_view(supplier_name),
            option_view(serial_number),
            views(warnings@),
        ),
{
    let mut numeric: usize = 0;
    let mut i: usize = 0;
    let ghost all = catalog@.parameters;
    while i < catalog.parameters.len()
        invariant
            numeric <= i <= catalog.parameters@.len(),
            all == catalog@.parameters,
            numeric == numeric_count(all.take(i as int)),
        decreases catalog.parameters@.len() - i,
    {
        assert(all.take(i + 1).drop_last() =~= all.take(i as int));
        assert(all.take(i + 1).last() == catalog.parameters@[i as int]@);
        if let ParameterOid::Numeric(_) = catalog.parameters[i].oid {
            numeric += 1;
        }
        i += 1;
    }
    assert(all.take(i as int) =~= all);
    let total: usize = catalog.parameters.len();
    DeviceInfo {
        host,
        slot,
        product_name,
        software_revision,
        supplier_name,
        serial_number,
        numeric_parameters: numeric,
        string_parameters: total - numeric,
        total_parameters: total,
        warnings,
    }
}

/// The value of a field that was read.
pub open spec fn recorded(result: Result<ReadResultView, ClientErrorView>) -> Option<Seq<char>> {
    match result {
        Ok(result) => Some(raw_text(result.value)),
        Err(_) => None,
    }
}

/// The warnings with one about a field that could not be read.
pub open spec fn warnings_after(
    warnings: Seq<WarningView>,
    field: Seq<char>,
    oid: OidView,
    result: Result<ReadResultView, ClientErrorView>,
) -> Seq<WarningView> {
    match result {
        Ok(_) => warnings,
        Err(error) => warnings.push(
            WarningView { field, oid, message: client_error_text(error) },
        ),
    }
}

/// The value of a field that was read. One that could not be read becomes a warning.
pub fn record_info_result(
    field: &'static str,
    oid: ParameterOid,
    result: Result<ReadResult, ClientError>,
    warnings: &mut Vec<InfoWarning>,
) -> (r: Option<String>)
    ensures
        option_view(r) == recorded(result_view(result)),
        views(final(warnings)@) == warnings_after(
            views(old(warnings)@),
            field@,
            oid@,
            result_view(result),
        ),
{
    match result {
        Ok(result) => Some(raw_value(&result.value)),
        Err(error) => {
            let warning = InfoWarning { field, oid, message: error.to_string() };
            let ghost view = warning@;
            warnings.push(warning);
            assert(views(warnings@) =~= views(old(warnings)@).push(view));
            None
        },
    }
}

/// Whether one of the warnings is about the field.
pub open spec fn warned(warnings: Seq<WarningView>, field: Seq<char>) -> bool {
    exists|i: int| 0 <= i < warnings.len() && (#[trigger] warnings[i]).field == field
}

/// A field for people: its value, or why there is none.
pub open spec fn field_text(info: InfoView, field: Seq<char>, value: Option<Seq<char>>) -> Seq<
    char,
> {
    match value {
        Some(value) => value,
        None => if warned(info.warnings, field) {
            "invalid"@
        } else {
            "unknown"@
        },
    }
}

/// A field for people: its value, or why there is none.
pub fn info_field_display<'a>(
    info: &DeviceInfo,
    field: &str,
    value: Option<&'a str>,
) -> (r: &'a str)
    ensures
        r@ == field_text(info@, field@, option_view(value)),
{
    if let Some(value) = value {
        return value;
    }
    let mut i: usize = 0;
    while i < info.warnings.len()
        invariant
            i <= info.warnings@.len(),
            value is None,
            forall|k: int| 0 <= k < i ==> (#[trigger] info@.warnings[k]).field != field@,
        decreases info.warnings@.len() - i,
    {
        if same(info.warnings[i].field, field) {
            assert(info@.warnings[i as int].field == field@);
            return "invalid";
        }
        i += 1;
    }
    "unknown"
}

/// A warning for people.
pub open spec fn warning_line(warning: WarningView) -> Seq<char> {
    "  "@ + warning.field + " ("@ + oid_text(warning.oid) + "): "@ + warning.message
}

/// What is told of a device, line by line.
pub open spec fn info_text(info: InfoView) -> Seq<Seq<char>> {
    seq![
        "Product:       "@ + field_text(info, "Product"@, info.product_name),
        "Software:      "@ + field_text(info, "Software"@, info.software_revision),
        "Supplier:      "@ + field_text(info, "Supplier"@, info.supplier_name),
        "Serial:        "@ + field_text(info, "Serial"@, info.serial_number),
        "Host:          "@ + info.host,
        "Slot:          "@ + decimal(info.slot as nat),
        "Parameters:    "@ + decimal(info.total_parameters),
        "Numeric OIDs:  "@ + decimal(info.numeric_parameters),
        "String OIDs:   "@ + decimal(info.string_parameters),
    ] + if info.warnings.len() == 0 {
        seq![]
    } else {
        seq!["Warnings:"@] + info.warnings.map_values(
            |warning: WarningView| warning_line(warning),
        )
    }
}

fn field_line(
    label: &str,
    info: &DeviceInfo,
    field: &str,
    value: &Option<String>,
) -> (r: String)
    ensures
        r@ == label@ + field_text(info@, field@, option_view(*value)),
{
    let value = match value {
        Some(value) => Some(value.as_str()),
        None => None,
    };
    concat(label, info_field_display(info, field, value))
}

/// What is told of a device, line by line.
pub fn info_lines(info: &DeviceInfo) -> (r: Vec<String>)
    ensures
        views(r@) == info_text(info@),
{
    let mut lines: Vec<String> = Vec::new();
    let ghost all = info_text(info@);
    push_line(&mut lines, field_line("Product:       ", info, "Product", &info.product_name));
    push_line(&mut lines, field_line("Software:      ", info, "Software", &info.software_revision));
    push_line(&mut lines, field_line("Supplier:      ", info, "Supplier", &info.supplier_name));
    push_line(&mut lines, field_line("Serial:        ", info, "Serial", &info.serial_number));
    push_line(&mut lines, concat("Host:          ", &info.host));
    push_line(&mut lines, concat("Slot:          ", &decimal_text(info.slot as u64)));
    push_line(&mut lines, concat("Parameters:    ", &decimal_text(info.total_parameters as u64)));
    push_line(&mut lines, concat("Numeric OIDs:  ", &decimal_text(info.numeric_parameters as u64)));
    push_line(&mut lines, concat("String OIDs:   ", &decimal_text(info.string_parameters as u64)));
    assert(views(lines@) =~= all.take(9));
    if info.warnings.len() > 0 {
        push_line(&mut lines, "Warnings:".to_owned());
        assert(views(lines@) =~= all.take(10));
        let mut i: usize = 0;
        while i < info.warnings.len()
            invariant
                i <= info.warnings@.len(),
                info.warnings@.len() > 0,
                all == info_text(info@),
                views(lines@) =~= all.take(i + 10),
            decreases info.warnings@.len() - i,
        {
            let warning = &info.warnings[i];
            let mut line = concat("  ", warning.field);
            line.append(" (");
            line.append(&warning.oid.to_string());
            line.append("): ");
            line.append(&warning.message);
            assert(line@ == all[i + 10]) by {
                assert(info@.warnings[i as int] == warning@);
            }
            push_line(&mut lines, line);
            i += 1;
        }
    }
    assert(views(lines@) =~= all);
    lines
}

} // verus!
