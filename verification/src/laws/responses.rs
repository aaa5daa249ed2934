//! Laws of responses: what they say is what is taken from them, and what they do not say is not.

use crate::client::access::{read_reply_of, write_reply_of};
use crate::client::error::ClientErrorView;
use crate::model::{OidView, ParameterView, ValueView};
use crate::protocol::descriptor::parsed_descriptor;
use crate::protocol::error::ProtocolErrorView;
use crate::protocol::items::law_nul_string_is_its_bytes;
use crate::protocol::response::{
    parsed_counts, parsed_fragment, parsed_group_name, parsed_handshake, parsed_menu,
    parsed_menu_count, parsed_menu_oids, parsed_menu_string_page, parsed_numeric_page,
    parsed_string_page, parsed_value, ParameterResponseView,
};
use crate::value::decoded_value;
use vstd::prelude::*;
use vstd::utf8::*;

verus! {

/// Every response begins with a return code. One that is not zero is the device's refusal, whatever
/// follows it, and a response without one is not used.
pub proof fn law_return_code_comes_first(content: Seq<u8>, oid: OidView)
    requires
        content.len() == 0 || content[0] != 0,
    ensures
        ({
            let error = if content.len() == 0 {
                ProtocolErrorView::InvalidResponse("missing return code"@)
            } else {
                ProtocolErrorView::Remote(content[0])
            };
            &&& parsed_counts(content) is Err && parsed_counts(content)->Err_0 == error
            &&& parsed_group_name(content) is Err && parsed_group_name(content)->Err_0 == error
            &&& parsed_menu_count(content) is Err && parsed_menu_count(content)->Err_0 == error
            &&& parsed_menu(content) is Err && parsed_menu(content)->Err_0 == error
            &&& parsed_menu_oids(content) is Err && parsed_menu_oids(content)->Err_0 == error
            &&& parsed_menu_string_page(content) is Err && parsed_menu_string_page(content)->Err_0
                == error
            &&& parsed_numeric_page(content) is Err && parsed_numeric_page(content)->Err_0 == error
            &&& parsed_string_page(content) is Err && parsed_string_page(content)->Err_0 == error
            &&& parsed_fragment(content) is Err && parsed_fragment(content)->Err_0 == error
            &&& parsed_value(content, oid) is Err && parsed_value(content, oid)->Err_0 == error
            &&& parsed_descriptor(content, oid) is Err && parsed_descriptor(content, oid)->Err_0
                == error
            &&& parsed_handshake(content) is Err && parsed_handshake(content)->Err_0 == error
        }),
{
}

/// A device says how many numeric OIDs it has in two bytes, and behind them it may say how many
/// string OIDs in four, which follow a text of as many bytes as the byte before it says.
pub proof fn law_counts_in_a_response(content: Seq<u8>)
    requires
        content.len() > 0,
        content[0] == 0,
    ensures
        parsed_counts(content) is Ok <==> content.len() == 3 || (content.len() > 3 && content.len()
            >= 8 + content[3]),
        parsed_counts(content) matches Ok(counts) ==> {
            &&& counts.numeric == content[1] * 0x100 + content[2]
            &&& content.len() == 3 ==> counts.string == 0
            &&& content.len() > 3 ==> {
                let at = 4 + content[3];
                counts.string == content[at] * 0x100_0000 + content[at + 1] * 0x1_0000 + content[at
                    + 2] * 0x100 + content[at + 3]
            }
        },
{
}

/// A device says how many menus a group has in three bytes: the return code, the group and the
/// count.
pub proof fn law_menu_count_in_a_response(content: Seq<u8>)
    requires
        content.len() > 0,
        content[0] == 0,
    ensures
        parsed_menu_count(content) is Ok <==> content.len() == 3,
        parsed_menu_count(content) matches Ok(count) ==> count.group == content[1] && count.count
            == content[2],
{
}

/// The value of a numeric OID is what follows the OID and the length, which must be that of the
/// rest, and the OID must be the one that was asked for.
pub proof fn law_value_of_a_numeric_oid(content: Seq<u8>, oid: u16)
    requires
        content.len() > 0,
        content[0] == 0,
    ensures
        parsed_value(content, OidView::Numeric(oid)) is Ok <==> content.len() >= 4
            && content.len() == 4 + content[3] && content[1] * 0x100 + content[2] == oid,
        parsed_value(content, OidView::Numeric(oid)) matches Ok(response) ==> response.oid
            == OidView::Numeric(oid) && response.value == content.subrange(4, content.len() as int),
{
    if content.len() >= 4 {
        assert(content.skip(4) =~= content.subrange(4, content.len() as int));
    }
}

/// The value of a string OID is what follows the OID, behind its length and with a final NUL, and
/// the length of the value, which is that of the rest, or zero where that does not fit in a byte.
pub proof fn law_value_of_a_string_oid(content: Seq<u8>, oid: Seq<char>)
    ensures
        parsed_value(content, OidView::String(oid)) matches Ok(response) ==> {
            let name = encode_utf8(oid);
            &&& response.oid == OidView::String(oid)
            &&& content.len() == 4 + name.len() + response.value.len()
            &&& content[0] == 0
            &&& content[1] == name.len() + 1
            &&& content.subrange(2, 2 + name.len() as int) == name
            &&& content[2 + name.len() as int] == 0
            &&& content[3 + name.len() as int] == 0 || content[3 + name.len() as int]
                == response.value.len()
            &&& content.subrange(4 + name.len() as int, content.len() as int) == response.value
        },
{
    if let Ok(response) = parsed_value(content, OidView::String(oid)) {
        let end = 2 + content[1] as int;
        let data = content.subrange(2, end);
        law_nul_string_is_its_bytes(data, "string OID"@);
        let name = encode_utf8(oid);
        assert(data == name.push(0));
        assert(data.len() == name.len() + 1);
        assert(content.subrange(2, 2 + name.len() as int) =~= data.drop_last());
        assert(data.drop_last() =~= name);
        assert(content[2 + name.len() as int] == data.last());
        assert(content.subrange(4 + name.len() as int, content.len() as int) =~= content.skip(
            end + 1,
        ));
    }
}

/// A read and a write both end with the value in the response; where that cannot be one of the
/// parameter, the bytes that came are told, of a read with the parameter.
pub proof fn law_value_in_the_response_is_taken(
    parameter: ParameterView,
    content: Seq<u8>,
    response: ParameterResponseView,
)
    requires
        parsed_value(content, parameter.oid) == Ok::<_, ProtocolErrorView>(response),
    ensures
        match decoded_value(parameter.parameter_type, response.value) {
            Ok(value) => read_reply_of(parameter, content) == Ok::<_, ClientErrorView>(value)
                && write_reply_of(parameter, content) == Ok::<_, ClientErrorView>(value),
            Err(error) => (read_reply_of(parameter, content) matches Err(
                ClientErrorView::InvalidParameterValue { parameter: identity, source, .. },
            ) && identity.oid == parameter.oid && identity.display_name == parameter.display_name
                && source == error) && write_reply_of(parameter, content) == Err::<ValueView, _>(
                ClientErrorView::Value(error),
            ),
        },
{
}

/// A response about one OID is not used for another of its kind.
pub proof fn law_value_of_another_oid_is_not_taken(content: Seq<u8>, oid: OidView, other: OidView)
    requires
        parsed_value(content, oid) is Ok,
        other != oid,
        other is Numeric <==> oid is Numeric,
    ensures
        parsed_value(content, other) is Err,
{
}

} // verus!
