//! Laws of descriptors: what a device says of a parameter is what the parameter is.

use crate::cli::command::value_to_write;
use crate::client::access::write_ask_of;
use crate::model::{
    Access, ConstraintView, KnownWidget, ParameterRole, ParameterType, ParameterView, SetSemantics,
    ValueView,
};
use crate::protocol::descriptor::{parameter_of, type_of, widget_kind, DescriptorView};
use crate::protocol::error::ProtocolErrorView;
use vstd::prelude::*;

verus! {

/// The access byte decides the access: 0 is read-only, 1 is read and write, and any other is
/// refused.
pub proof fn law_access_byte_is_the_access(descriptor: DescriptorView, constraint: ConstraintView)
    ensures
        descriptor.access == 0 ==> (parameter_of(descriptor, constraint) matches Ok(parameter)
            && parameter.access == Access::ReadOnly),
        descriptor.access == 1 ==> (parameter_of(descriptor, constraint) matches Ok(parameter)
            && parameter.access == Access::ReadWrite),
        descriptor.access > 1 ==> parameter_of(descriptor, constraint) == Err::<ParameterView, _>(
            ProtocolErrorView::InvalidAccess(descriptor.access),
        ),
{
}

/// Nothing is ever written to a parameter that the device describes with the access byte 0.
pub proof fn law_parameter_described_as_read_only_is_not_written(
    descriptor: DescriptorView,
    constraint: ConstraintView,
    value: ValueView,
    text: Option<Seq<char>>,
    address: u8,
)
    requires
        descriptor.access == 0,
    ensures
        parameter_of(descriptor, constraint) is Ok,
        write_ask_of(parameter_of(descriptor, constraint)->Ok_0, value, address) is Err,
        value_to_write(parameter_of(descriptor, constraint)->Ok_0, text) is Err,
{
}

/// A parameter has the OID, the name and the constraint that the device gives it, and its
/// precision where that is not zero.
pub proof fn law_parameter_is_as_described(descriptor: DescriptorView, constraint: ConstraintView)
    ensures
        parameter_of(descriptor, constraint) matches Ok(parameter) ==> {
            &&& parameter.oid == descriptor.oid
            &&& parameter.display_name == descriptor.display_name
            &&& parameter.constraint == constraint
            &&& parameter.parameter_type == type_of(descriptor)
            &&& parameter.precision is None <==> descriptor.precision == 0
            &&& descriptor.precision != 0 ==> parameter.precision == Some(descriptor.precision)
        },
{
}

/// The type number decides the type. A text is as long as the size says, where that is not zero;
/// an array has as many elements as fit in the size.
pub proof fn law_type_number_is_the_type(descriptor: DescriptorView)
    ensures
        type_of(descriptor) == ParameterType::Int16 <==> descriptor.type_id == 2,
        type_of(descriptor) == ParameterType::Int32 <==> descriptor.type_id == 4,
        type_of(descriptor) == ParameterType::Float32 <==> descriptor.type_id == 6,
        type_of(descriptor) is String <==> descriptor.type_id == 7,
        type_of(descriptor) matches ParameterType::String { max_bytes } ==> (max_bytes is None
            <==> descriptor.size == 0) && (max_bytes matches Some(n) ==> n == descriptor.size),
        type_of(descriptor) is Int16Array <==> descriptor.type_id == 12,
        type_of(descriptor) matches ParameterType::Int16Array { length } ==> (length matches Some(n)
            && 2 * n <= descriptor.size < 2 * n + 2),
        type_of(descriptor) is Int32Array <==> descriptor.type_id == 14,
        type_of(descriptor) matches ParameterType::Int32Array { length } ==> (length matches Some(n)
            && 4 * n <= descriptor.size < 4 * n + 4),
        type_of(descriptor) is Float32Array <==> descriptor.type_id == 16,
        type_of(descriptor) matches ParameterType::Float32Array { length } ==> (
        length matches Some(n) && 4 * n <= descriptor.size < 4 * n + 4),
        type_of(descriptor) is StringArray <==> descriptor.type_id == 17,
        type_of(descriptor) matches ParameterType::StringArray { length, max_element_bytes } ==> (
        length is None && (max_element_bytes is None <==> descriptor.precision == 0) && (
        max_element_bytes matches Some(n) ==> n == descriptor.precision)),
        type_of(descriptor) == ParameterType::Binary <==> descriptor.type_id == 18,
        type_of(descriptor) matches ParameterType::Unsupported { type_id } ==> type_id
            == descriptor.type_id,
{
}

/// Whether a number stands for a title or a label among the widgets of texts or of other
/// parameters.
pub open spec fn is_heading(widget: u8, of_text: bool) -> bool {
    if of_text {
        5 <= widget <= 8 || widget == 10 || widget == 13
    } else {
        widget == 15 || widget == 16
    }
}

/// Titles and labels are layout, all other parameters are operational. Writing sets off an action
/// where the widget is one of two kinds of button, and only there. A device of the first version
/// says nothing of widgets.
pub proof fn law_widget_decides_the_role(descriptor: DescriptorView, constraint: ConstraintView)
    ensures
        parameter_of(descriptor, constraint) matches Ok(parameter) ==> {
            let of_text = descriptor.type_id == 7;
            &&& parameter.widget.value == (if descriptor.version >= 2 {
                descriptor.widget
            } else {
                0
            })
            &&& parameter.role == ParameterRole::Layout <==> descriptor.version >= 2 && is_heading(
                descriptor.widget,
                of_text,
            )
            &&& parameter.set_semantics == SetSemantics::Trigger <==> descriptor.version >= 2
                && !of_text && (descriptor.widget == 11 || descriptor.widget == 12)
            &&& parameter.widget.known_kind == widget_kind(
                parameter.widget.value,
                parameter.parameter_type,
            )
        },
{
}

/// The kinds of the widgets of texts.
pub proof fn law_text_widgets(value: u8, parameter_type: ParameterType)
    requires
        parameter_type is String,
    ensures
        ({
            let kind = widget_kind(value, parameter_type);
            &&& kind == Some(KnownWidget::Text) <==> [1u8, 3, 4, 9, 14]@.contains(value)
            &&& kind == Some(KnownWidget::Hidden) <==> value == 2
            &&& kind == Some(KnownWidget::Title) <==> [5u8, 6, 7, 8, 10]@.contains(value)
            &&& kind == Some(KnownWidget::Choice) <==> value == 11
            &&& kind == Some(KnownWidget::Alarm) <==> value == 12
            &&& kind == Some(KnownWidget::RichLabel) <==> value == 13
            &&& kind is None <==> value == 0 || value > 14
        }),
{
    let texts = [1u8, 3, 4, 9, 14]@;
    let titles = [5u8, 6, 7, 8, 10]@;
    assert(texts[0] == 1 && texts[1] == 3 && texts[2] == 4 && texts[3] == 9 && texts[4] == 14);
    assert(titles[0] == 5 && titles[1] == 6 && titles[2] == 7 && titles[3] == 8 && titles[4] == 10);
}

/// The kinds of the widgets of all other parameters.
pub proof fn law_other_widgets(value: u8, parameter_type: ParameterType)
    requires
        !(parameter_type is String),
    ensures
        ({
            let kind = widget_kind(value, parameter_type);
            &&& kind == Some(KnownWidget::Text) <==> value == 1 || value == 6 || value == 14
            &&& kind == Some(KnownWidget::Hidden) <==> value == 2
            &&& kind == Some(KnownWidget::Slider) <==> value == 3 || value == 4 || value == 17
                || value == 19 || 24 <= value <= 27
            &&& kind == Some(KnownWidget::Spinner) <==> value == 5 || value == 28
            &&& kind == Some(KnownWidget::Choice) <==> value == 7 || value == 9 || value == 10
                || value == 20 || value == 22 || value == 23 || 29 <= value <= 34
            &&& kind == Some(KnownWidget::Checkbox) <==> value == 8
            &&& kind == Some(KnownWidget::Button) <==> 11 <= value <= 13 || value == 18
            &&& kind == Some(KnownWidget::Title) <==> value == 15 || value == 16
            &&& kind is None <==> value == 0 || value == 21 || value > 34
        }),
{
}

} // verus!
