//! The descriptors that say what a parameter is.

use super::constraint::{parse_constraint, parsed_constraint};
use super::error::{ProtocolError, ProtocolErrorView};
use super::frame::Frame;
use super::items::{nul_string, parse_nul_string};
use super::response::{checked, ensure_success, invalid};
use crate::bytes::{be16, read16, tail_of};
use crate::model::{
    Access, Constraint, ConstraintView, KnownWidget, OidView, Parameter, ParameterOid,
    ParameterRole, ParameterType, ParameterView, SetSemantics, Widget,
};
use crate::views::result_view;
use vstd::prelude::*;

verus! {

/// A descriptor as it stands in a response.
#[derive(Debug, PartialEq, Eq)]
pub struct RawDescriptor {
    pub oid: ParameterOid,
    pub version: u8,
    pub type_id: u8,
    pub size: u8,
    pub access: u8,
    pub precision: u8,
    pub widget: u8,
    pub display_name: String,
    pub constraint_type: u8,
    pub constraint_data: Vec<u8>,
}

/// The value of a `RawDescriptor`.
pub struct DescriptorView {
    pub oid: OidView,
    pub version: u8,
    pub type_id: u8,
    pub size: u8,
    pub access: u8,
    pub precision: u8,
    pub widget: u8,
    pub display_name: Seq<char>,
    pub constraint_type: u8,
    pub constraint_data: Seq<u8>,
}

impl View for RawDescriptor {
    type V = DescriptorView;

    open spec fn view(&self) -> DescriptorView {
        DescriptorView {
            oid: self.oid@,
            version: self.version,
            type_id: self.type_id,
            size: self.size,
            access: self.access,
            precision: self.precision,
            widget: self.widget,
            display_name: self.display_name@,
            constraint_type: self.constraint_type,
            constraint_data: self.constraint_data@,
        }
    }
}

impl Clone for RawDescriptor {
    fn clone(&self) -> (r: Self)
        ensures
            r@ == self@,
    {
        assert(self@.constraint_data.skip(0) =~= self@.constraint_data);
        RawDescriptor {
            oid: self.oid.clone(),
            version: self.version,
            type_id: self.type_id,
            size: self.size,
            access: self.access,
            precision: self.precision,
            widget: self.widget,
            display_name: self.display_name.clone(),
            constraint_type: self.constraint_type,
            constraint_data: tail_of(&self.constraint_data, 0),
        }
    }
}

/// The descriptor in a response about a numeric OID: the OID, the length of the rest, six bytes,
/// the name behind its length, and the data of the constraint behind its form and its length in
/// 8 bits.
pub open spec fn numeric_descriptor(content: Seq<u8>) -> Result<DescriptorView, ProtocolErrorView> {
    if content.len() < 13 {
        invalid("numeric descriptor is too short"@)
    } else if content[3] != content.len() - 4 {
        invalid("numeric descriptor length does not match"@)
    } else {
        let end = 11 + content[10] as int;
        if end + 2 > content.len() {
            invalid("numeric descriptor name is truncated"@)
        } else {
            match nul_string(content.subrange(11, end), "parameter name"@) {
                Err(error) => Err(error),
                Ok(display_name) => if end + 2 + content[end + 1] != content.len() {
                    invalid("numeric constraint length does not match"@)
                } else {
                    Ok(
                        DescriptorView {
                            oid: OidView::Numeric(be16(content, 1)),
                            version: content[4],
                            type_id: content[5],
                            size: content[6],
                            access: content[7],
                            precision: content[8],
                            widget: content[9],
                            display_name,
                            constraint_type: content[end],
                            constraint_data: content.skip(end + 2),
                        },
                    )
                },
            }
        }
    }
}

/// The descriptor in a response about a string OID: the OID behind its length, six bytes, the
/// name behind its length, and the data of the constraint behind its form and its length in
/// 16 bits.
pub open spec fn string_descriptor(content: Seq<u8>) -> Result<DescriptorView, ProtocolErrorView> {
    if content.len() < 13 {
        invalid("string descriptor is too short"@)
    } else {
        let start = 2 + content[1] as int;
        if start + 9 > content.len() {
            invalid("string descriptor OID is truncated"@)
        } else {
            let end = start + 7 + content[start + 6] as int;
            match nul_string(content.subrange(2, start), "string OID"@) {
                Err(error) => Err(error),
                Ok(oid) => if end + 3 > content.len() {
                    invalid("string descriptor name is truncated"@)
                } else {
                    match nul_string(content.subrange(start + 7, end), "parameter name"@) {
                        Err(error) => Err(error),
                        Ok(display_name) => if end + 3 + be16(content, end + 1) != content.len() {
                            invalid("string constraint length does not match"@)
                        } else {
                            Ok(
                                DescriptorView {
                                    oid: OidView::String(oid),
                                    version: content[start],
                                    type_id: content[start + 1],
                                    size: content[start + 2],
                                    access: content[start + 3],
                                    precision: content[start + 4],
                                    widget: content[start + 5],
                                    display_name,
                                    constraint_type: content[end],
                                    constraint_data: content.skip(end + 3),
                                },
                            )
                        },
                    }
                },
            }
        }
    }
}

/// The descriptor in a response that must be about the expected OID and of a known version.
pub open spec fn parsed_descriptor(content: Seq<u8>, expected: OidView) -> Result<
    DescriptorView,
    ProtocolErrorView,
> {
    let descriptor = match expected {
        OidView::Numeric(_) => numeric_descriptor(content),
        OidView::String(_) => string_descriptor(content),
    };
    checked(
        content,
        match descriptor {
            Err(error) => Err(error),
            Ok(descriptor) => if descriptor.oid != expected {
                Err(ProtocolErrorView::UnexpectedOid { expected, actual: descriptor.oid })
            } else if descriptor.version > 2 {
                Err(ProtocolErrorView::UnsupportedDescriptorVersion(descriptor.version))
            } else {
                Ok(descriptor)
            },
        },
    )
}

/// A size or a limit, where zero stands for none.
pub open spec fn nonzero(n: u8) -> Option<u8> {
    if n == 0 {
        None
    } else {
        Some(n)
    }
}

/// The type of the parameter that a descriptor is about.
pub open spec fn type_of(descriptor: DescriptorView) -> ParameterType {
    let id = descriptor.type_id;
    if id == 2 {
        ParameterType::Int16
    } else if id == 4 {
        ParameterType::Int32
    } else if id == 6 {
        ParameterType::Float32
    } else if id == 7 {
        ParameterType::String { max_bytes: nonzero(descriptor.size) }
    } else if id == 12 {
        ParameterType::Int16Array { length: Some((descriptor.size / 2) as u16) }
    } else if id == 14 {
        ParameterType::Int32Array { length: Some((descriptor.size / 4) as u16) }
    } else if id == 16 {
        ParameterType::Float32Array { length: Some((descriptor.size / 4) as u16) }
    } else if id == 17 {
        ParameterType::StringArray {
            length: None,
            max_element_bytes: nonzero(descriptor.precision),
        }
    } else if id == 18 {
        ParameterType::Binary
    } else {
        ParameterType::Unsupported { type_id: id }
    }
}

/// The kind of a widget, by its number. The numbers mean one thing for texts and another for all
/// other parameters.
pub open spec fn widget_kind(value: u8, parameter_type: ParameterType) -> Option<KnownWidget> {
    if parameter_type is String {
        if value == 1 || value == 3 || value == 4 || value == 9 || value == 14 {
            Some(KnownWidget::Text)
        } else if value == 2 {
            Some(KnownWidget::Hidden)
        } else if 5 <= value <= 8 || value == 10 {
            Some(KnownWidget::Title)
        } else if value == 11 {
            Some(KnownWidget::Choice)
        } else if value == 12 {
            Some(KnownWidget::Alarm)
        } else if value == 13 {
            Some(KnownWidget::RichLabel)
        } else {
            None
        }
    } else {
        if value == 1 || value == 6 || value == 14 {
            Some(KnownWidget::Text)
        } else if value == 2 {
            Some(KnownWidget::Hidden)
        } else if value == 3 || value == 4 || value == 17 || value == 19 || 24 <= value <= 27 {
            Some(KnownWidget::Slider)
        } else if value == 5 || value == 28 {
            Some(KnownWidget::Spinner)
        } else if value == 7 || value == 9 || value == 10 || value == 20 || value == 22 || value
            == 23 || 29 <= value <= 34 {
            Some(KnownWidget::Choice)
        } else if value == 8 {
            Some(KnownWidget::Checkbox)
        } else if 11 <= value <= 13 || value == 18 {
            Some(KnownWidget::Button)
        } else if value == 15 || value == 16 {
            Some(KnownWidget::Title)
        } else {
            None
        }
    }
}

/// The parameter that a descriptor is about. Descriptors before the second version have no
/// widget. Titles and labels are layout; two kinds of button set off an action.
pub open spec fn parameter_of(descriptor: DescriptorView, constraint: ConstraintView) -> Result<
    ParameterView,
    ProtocolErrorView,
> {
    let parameter_type = type_of(descriptor);
    let widget = if descriptor.version < 2 {
        0
    } else {
        descriptor.widget
    };
    let kind = widget_kind(widget, parameter_type);
    if descriptor.access > 1 {
        Err(ProtocolErrorView::InvalidAccess(descriptor.access))
    } else {
        Ok(
            ParameterView {
                oid: descriptor.oid,
                display_name: descriptor.display_name,
                parameter_type,
                access: if descriptor.access == 0 {
                    Access::ReadOnly
                } else {
                    Access::ReadWrite
                },
                precision: nonzero(descriptor.precision),
                widget: Widget { value: widget, known_kind: kind },
                role: if kind == Some(KnownWidget::Title) || kind == Some(KnownWidget::RichLabel) {
                    ParameterRole::Layout
                } else {
                    ParameterRole::Operational
                },
                set_semantics: if !(parameter_type is String) && (widget == 11 || widget == 12) {
                    SetSemantics::Trigger
                } else {
                    SetSemantics::Value
                },
                constraint,
            },
        )
    }
}

fn optional(n: u8) -> (r: Option<u8>)
    ensures
        r == nonzero(n),
{
    if n == 0 {
        None
    } else {
        Some(n)
    }
}

fn known_widget(value: u8, parameter_type: &ParameterType) -> (r: Option<KnownWidget>)
    ensures
        r == widget_kind(value, *parameter_type),
{
    if let ParameterType::String { .. } = parameter_type {
        return match value {
            1 | 3 | 4 | 9 | 14 => Some(KnownWidget::Text),
            2 => Some(KnownWidget::Hidden),
            5..=8 | 10 => Some(KnownWidget::Title),
            11 => Some(KnownWidget::Choice),
            12 => Some(KnownWidget::Alarm),
            13 => Some(KnownWidget::RichLabel),
            _ => None,
        };
    }
    match value {
        1 | 6 | 14 => Some(KnownWidget::Text),
        2 => Some(KnownWidget::Hidden),
        3 | 4 | 17 | 19 | 24..=27 => Some(KnownWidget::Slider),
        5 | 28 => Some(KnownWidget::Spinner),
        7 | 9 | 10 | 20 | 22 | 23 | 29..=34 => Some(KnownWidget::Choice),
        8 => Some(KnownWidget::Checkbox),
        11..=13 | 18 => Some(KnownWidget::Button),
        15 | 16 => Some(KnownWidget::Title),
        _ => None,
    }
}

impl RawDescriptor {
    pub fn parse(frame: &Frame, expected_oid: &ParameterOid) -> (r: Result<Self, ProtocolError>)
        ensures
            result_view(r) == parsed_descriptor(frame@.content, expected_oid@),
    {
        if let Err(error) = ensure_success(frame) {
            return Err(error);
        }
        let parsed = match expected_oid {
            ParameterOid::Numeric(_) => parse_numeric_descriptor(&frame.content),
            ParameterOid::String(_) => parse_string_descriptor(&frame.content),
        };
        let descriptor = match parsed {
            Ok(descriptor) => descriptor,
            Err(error) => return Err(error),
        };
        if !descriptor.oid.same(expected_oid) {
            return Err(
                ProtocolError::UnexpectedOid {
                    expected: expected_oid.clone(),
                    actual: descriptor.oid,
                },
            );
        }
        if descriptor.version > 2 {
            return Err(ProtocolError::UnsupportedDescriptorVersion(descriptor.version));
        }
        Ok(descriptor)
    }

    pub fn parameter_type(&self) -> (r: ParameterType)
        ensures
            r == type_of(self@),
    {
        match self.type_id {
            2 => ParameterType::Int16,
            4 => ParameterType::Int32,
            6 => ParameterType::Float32,
            7 => ParameterType::String { max_bytes: optional(self.size) },
            12 => ParameterType::Int16Array { length: Some((self.size / 2) as u16) },
            14 => ParameterType::Int32Array { length: Some((self.size / 4) as u16) },
            16 => ParameterType::Float32Array { length: Some((self.size / 4) as u16) },
            17 => ParameterType::StringArray {
                length: None,
                max_element_bytes: optional(self.precision),
            },
            18 => ParameterType::Binary,
            type_id => ParameterType::Unsupported { type_id },
        }
    }

    /// The constraint that stands in the descriptor itself.
    pub fn inline_constraint(&self) -> (r: Result<Constraint, ProtocolError>)
        ensures
            result_view(r) == parsed_constraint(
                self@.constraint_type,
                self@.constraint_data,
                type_of(self@),
            ),
    {
        parse_constraint(self.constraint_type, &self.constraint_data, &self.parameter_type())
    }

    pub fn into_parameter(self, constraint: Constraint) -> (r: Result<Parameter, ProtocolError>)
        ensures
            result_view(r) == parameter_of(self@, constraint@),
    {
        let parameter_type = self.parameter_type();
        let access = match self.access {
            0 => Access::ReadOnly,
            1 => Access::ReadWrite,
            value => return Err(ProtocolError::InvalidAccess(value)),
        };
        let widget_value: u8 = if self.version < 2 {
            0
        } else {
            self.widget
        };
        let known_kind = known_widget(widget_value, &parameter_type);
        let role = match known_kind {
            Some(KnownWidget::Title) | Some(KnownWidget::RichLabel) => ParameterRole::Layout,
            _ => ParameterRole::Operational,
        };
        let is_string = match parameter_type {
            ParameterType::String { .. } => true,
            _ => false,
        };
        let set_semantics = if !is_string && (widget_value == 11 || widget_value == 12) {
            SetSemantics::Trigger
        } else {
            SetSemantics::Value
        };
        Ok(
            Parameter {
                oid: self.oid,
                display_name: self.display_name,
                parameter_type,
                access,
                precision: optional(self.precision),
                widget: Widget { value: widget_value, known_kind },
                role,
                set_semantics,
                constraint,
            },
        )
    }
}

fn parse_numeric_descriptor(content: &[u8]) -> (r: Result<RawDescriptor, ProtocolError>)
    ensures
        result_view(r) == numeric_descriptor(content@),
{
    if content.len() < 13 {
        return Err(ProtocolError::InvalidResponse("numeric descriptor is too short"));
    }
    if content[3] as usize != content.len() - 4 {
        return Err(ProtocolError::InvalidResponse("numeric descriptor length does not match"));
    }
    let end: usize = 11 + content[10] as usize;
    if end + 2 > content.len() {
        return Err(ProtocolError::InvalidResponse("numeric descriptor name is truncated"));
    }
    let display_name = match parse_nul_string(&content[11..end], "parameter name") {
        Ok(name) => name,
        Err(error) => return Err(error),
    };
    if end + 2 + content[end + 1] as usize != content.len() {
        return Err(ProtocolError::InvalidResponse("numeric constraint length does not match"));
    }
    Ok(
        RawDescriptor {
            oid: ParameterOid::Numeric(read16(content, 1)),
            version: content[4],
            type_id: content[5],
            size: content[6],
            access: content[7],
            precision: content[8],
            widget: content[9],
            display_name,
            constraint_type: content[end],
            constraint_data: tail_of(content, end + 2),
        },
    )
}

fn parse_string_descriptor(content: &[u8]) -> (r: Result<RawDescriptor, ProtocolError>)
    ensures
        result_view(r) == string_descriptor(content@),
{
    if content.len() < 13 {
        return Err(ProtocolError::InvalidResponse("string descriptor is too short"));
    }
    let start: usize = 2 + content[1] as usize;
    if start + 9 > content.len() {
        return Err(ProtocolError::InvalidResponse("string descriptor OID is truncated"));
    }
    let oid = match parse_nul_string(&content[2..start], "string OID") {
        Ok(oid) => oid,
        Err(error) => return Err(error),
    };
    let end: usize = start + 7 + content[start + 6] as usize;
    if end + 3 > content.len() {
        return Err(ProtocolError::InvalidResponse("string descriptor name is truncated"));
    }
    let display_name = match parse_nul_string(&content[start + 7..end], "parameter name") {
        Ok(name) => name,
        Err(error) => return Err(error),
    };
    let length: usize = read16(content, end + 1) as usize;
    if length != content.len() - end - 3 {
        return Err(ProtocolError::InvalidResponse("string constraint length does not match"));
    }
    Ok(
        RawDescriptor {
            oid: ParameterOid::String(oid),
            version: content[start],
            type_id: content[start + 1],
            size: content[start + 2],
            access: content[start + 3],
            precision: content[start + 4],
            widget: content[start + 5],
            display_name,
            constraint_type: content[end],
            constraint_data: tail_of(content, end + 3),
        },
    )
}

} // verus!
