//! Laws of the conversation with a device.

use super::naming::law_string_oid_round_trip;
use super::values::law_value_round_trip;
use crate::catalog::{identity_of, new_catalog, CatalogView};
use crate::client::access::{read_reply_of, write_ask_of, write_reply_of};
use crate::client::discovery::{discovery_event, DiscoveryView};
use crate::client::error::{code_text, ClientErrorView};
use crate::client::exchange::{correlates, has_text, is_answer, AskView, CorrelationView};
use crate::client::fetch::{
    external_parameter, fetch_reply, object_reply, ExternalObjectView, FetchView, Progress,
    MAX_EXTERNAL_FRAGMENTS, MAX_EXTERNAL_OBJECT_SIZE,
};
use crate::client::menus::MenusFetchView;
use crate::client::oids::{
    menu_string_reply, numeric_reply, page_fits, page_size, string_oids_of, string_reply,
    MenuStringOidsView, NumericOidsView, StringOidsView,
};
use crate::model::{
    alarms_fit, is_oid_char, is_string_oid, parsed_oid, resolved, Access, ConstraintView, OidView,
    ParameterView, SetSemantics, ValueView,
};
use crate::protocol::constraint::parsed_constraint;
use crate::protocol::constraint_layout::{law_alarm_bits_fit, law_external_constraint_is_inline};
use crate::protocol::descriptor::{parameter_of, parsed_descriptor, type_of, DescriptorView};
use crate::protocol::error::ProtocolErrorView;
use crate::protocol::frame::FrameView;
use crate::protocol::items::{countable, nul_string};
use crate::protocol::layout::{
    describable, descriptor_bytes, law_descriptor_round_trip, law_echoed_value_round_trip,
    law_menu_string_page_round_trip, law_numeric_page_round_trip, law_string_page_round_trip,
    menu_string_page_bytes, numeric_page_bytes, string_page_bytes,
};
use crate::protocol::request::{oid_request, REPORT_PARAM, REPORT_STRING};
use crate::protocol::response::{
    parsed_fragment, parsed_menu_count, parsed_menu_oids, parsed_menu_string_page,
    parsed_numeric_page, parsed_string_page, parsed_value, MenuStringOidPageView, NumericOidPageView, StringOidPageView,
};
use crate::value::encoded_value;
use vstd::prelude::*;
use vstd::utf8::*;

verus! {

/// A value that is written to a device which answers with what it was sent is the value that the
/// write reports.
pub proof fn law_echoed_write_reports_the_value(
    parameter: ParameterView,
    value: ValueView,
    address: u8,
)
    requires
        write_ask_of(parameter, value, address) is Ok,
    ensures
        write_reply_of(
            parameter,
            write_ask_of(parameter, value, address)->Ok_0.request.content,
        ) == Ok::<_, ClientErrorView>(value),
        read_reply_of(
            parameter,
            write_ask_of(parameter, value, address)->Ok_0.request.content,
        ) == Ok::<_, ClientErrorView>(value),
{
    let bytes = encoded_value(parameter, value)->Ok_0;
    law_value_round_trip(parameter, value);
    law_echoed_value_round_trip(address, parameter.oid, bytes);
}

/// A request that sets off an action is sent once.
pub proof fn law_action_is_sent_once(parameter: ParameterView, value: ValueView, address: u8)
    requires
        parameter.set_semantics == SetSemantics::Trigger,
        write_ask_of(parameter, value, address) is Ok,
    ensures
        write_ask_of(parameter, value, address)->Ok_0.attempts == 1,
{
}

/// Nothing is sent to a parameter that is read-only.
pub proof fn law_read_only_is_not_written(parameter: ParameterView, value: ValueView, address: u8)
    requires
        parameter.access == Access::ReadOnly,
    ensures
        write_ask_of(parameter, value, address) == Err::<AskView, _>(
            ClientErrorView::ReadOnly(identity_of(parameter)),
        ),
{
}

/// A request that the device refuses ends with the device's return code and what it means, whatever
/// was asked for.
pub proof fn law_refusal_is_reported(
    content: Seq<u8>,
    parameter: ParameterView,
    objects: Map<u16, Seq<u8>>,
    numeric: NumericOidsView,
    string: StringOidsView,
)
    requires
        content.len() > 0,
        content[0] != 0,
    ensures
        ({
            let refusal = ClientErrorView::Remote {
                code: content[0],
                description: code_text(content[0]),
            };
            &&& read_reply_of(parameter, content) == Err::<ValueView, _>(refusal)
            &&& write_reply_of(parameter, content) == Err::<ValueView, _>(refusal)
            &&& fetch_reply(FetchView::Descriptor(parameter.oid), objects, content) == Err::<
                Progress<FetchView, ParameterView>,
                _,
            >(refusal)
            &&& numeric_reply(numeric, content) == Err::<NumericOidsView, _>(refusal)
            &&& string_reply(string, content) == Err::<StringOidsView, _>(refusal)
        }),
{
}

/// A report is never taken for an answer.
pub proof fn law_report_is_no_answer(ask: AskView, frame: FrameView)
    requires
        frame.message_type == REPORT_PARAM || frame.message_type == REPORT_STRING,
    ensures
        !is_answer(ask, frame),
{
}

proof fn lemma_text_at(content: Seq<u8>, end: int, text: Seq<char>, field: Seq<char>)
    requires
        content.len() > end,
        end == 2 + content[1],
        nul_string(content.subrange(2, end), field) == Ok::<_, ProtocolErrorView>(text),
    ensures
        has_text(content, text),
{
    let data = content.subrange(2, end);
    let bytes = data.drop_last();
    decode_utf8_encode_utf8(bytes);
    assert(encode_utf8(text) == bytes);
    assert(content.subrange(2, 2 + bytes.len() as int) =~= bytes);
    assert(content[2 + bytes.len() as int] == data.last());
}

/// No usable answer about a parameter's value is passed over.
pub proof fn law_value_answer_is_recognised(content: Seq<u8>, oid: OidView)
    requires
        parsed_value(content, oid) is Ok,
    ensures
        correlates(CorrelationView::Parameter(oid), content),
{
    if let OidView::String(text) = oid {
        lemma_text_at(content, 2 + content[1] as int, text, "string OID"@);
    }
}

/// No usable answer about what a parameter is is passed over.
pub proof fn law_descriptor_answer_is_recognised(content: Seq<u8>, oid: OidView)
    requires
        parsed_descriptor(content, oid) is Ok,
    ensures
        correlates(CorrelationView::Parameter(oid), content),
{
    if let OidView::String(text) = oid {
        lemma_text_at(content, 2 + content[1] as int, text, "string OID"@);
    }
}

/// No page of OIDs, fragment of an object or answer about a menu that says what was asked for is
/// passed over.
pub proof fn law_page_answer_is_recognised(content: Seq<u8>)
    ensures
        parsed_numeric_page(content) matches Ok(page) ==> correlates(
            CorrelationView::NumericPage(page.first),
            content,
        ),
        parsed_string_page(content) matches Ok(page) ==> correlates(
            CorrelationView::StringPage(page.first),
            content,
        ),
        parsed_fragment(content) matches Ok(fragment) ==> correlates(
            CorrelationView::ExternalObject { oid: fragment.oid, fragment: fragment.fragment },
            content,
        ),
        parsed_menu_count(content) matches Ok(count) ==> correlates(
            CorrelationView::MenuGroup(count.group),
            content,
        ),
        parsed_menu_oids(content) matches Ok(oids) ==> correlates(
            CorrelationView::Menu(oids.group, oids.menu),
            content,
        ),
{
}

/// Each page of numeric OIDs brings some, and never more than the device said it has.
pub proof fn law_numeric_page_makes_progress(oids: NumericOidsView, content: Seq<u8>)
    requires
        oids.found.len() <= oids.count,
        numeric_reply(oids, content) is Ok,
    ensures
        oids.found.len() < numeric_reply(oids, content)->Ok_0.found.len() <= oids.count,
        numeric_reply(oids, content)->Ok_0.count == oids.count,
{
}

proof fn lemma_string_oids(texts: Seq<Seq<char>>, invalid: Seq<char>, numeric: Seq<char>)
    requires
        string_oids_of(texts, invalid, numeric) is Ok,
    ensures
        string_oids_of(texts, invalid, numeric)->Ok_0.len() == texts.len(),
        forall|i: int|
            0 <= i < texts.len() ==> (#[trigger] string_oids_of(
                texts,
                invalid,
                numeric,
            )->Ok_0[i]) is String,
    decreases texts.len(),
{
    if texts.len() > 0 {
        lemma_string_oids(texts.drop_last(), invalid, numeric);
    }
}

/// Each page of string OIDs brings some, none of them numeric, and never more than the device said
/// it has.
pub proof fn law_string_page_makes_progress(oids: StringOidsView, content: Seq<u8>)
    requires
        oids.found.len() <= oids.count,
        forall|i: int| 0 <= i < oids.found.len() ==> (#[trigger] oids.found[i]) is String,
        string_reply(oids, content) is Ok,
    ensures
        ({
            let after = string_reply(oids, content)->Ok_0;
            &&& oids.found.len() < after.found.len() <= oids.count
            &&& after.count == oids.count
            &&& forall|i: int| 0 <= i < after.found.len() ==> (#[trigger] after.found[i]) is String
        }),
{
    let page = parsed_string_page(content)->Ok_0;
    lemma_string_oids(
        page.oids,
        "device returned an invalid string OID"@,
        "device returned a numeric value in its string OID table"@,
    );
}

/// The fragments of an object come to an end: each one that is taken is new, and there is a limit
/// to how many are taken and to how long the object is.
pub proof fn law_fragments_come_to_an_end(object: ExternalObjectView, content: Seq<u8>)
    requires
        object.seen.finite(),
    ensures
        object_reply(object, content) matches Ok(Progress::More(after)) ==> {
            &&& after.object_id == object.object_id
            &&& object.seen.len() < MAX_EXTERNAL_FRAGMENTS
            &&& !object.seen.contains(object.requested)
            &&& after.seen == object.seen.insert(object.requested)
            &&& after.seen.finite()
            &&& after.seen.len() == object.seen.len() + 1
            &&& after.bytes.len() <= MAX_EXTERNAL_OBJECT_SIZE
        },
        object_reply(object, content) matches Ok(Progress::Done(bytes)) ==> bytes.len()
            <= MAX_EXTERNAL_OBJECT_SIZE,
{
}

/// The OID of the parameter that is asked for.
pub open spec fn fetch_oid(fetch: FetchView) -> OidView {
    match fetch {
        FetchView::Descriptor(oid) => oid,
        FetchView::Object { descriptor, .. } => descriptor.oid,
    }
}

/// The parameter that comes is the one that was asked for, and how a value of it is shown is
/// always defined.
pub proof fn law_fetch_brings_its_parameter(
    fetch: FetchView,
    objects: Map<u16, Seq<u8>>,
    content: Seq<u8>,
)
    ensures
        fetch_reply(fetch, objects, content) matches Ok(Progress::More(after)) ==> fetch_oid(after)
            == fetch_oid(fetch),
        fetch_reply(fetch, objects, content) matches Ok(Progress::Done(parameter)) ==> parameter.oid
            == fetch_oid(fetch) && alarms_fit(resolved(parameter.constraint)),
{
    match fetch {
        FetchView::Descriptor(oid) => {
            if let Ok(descriptor) = parsed_descriptor(content, oid) {
                if parsed_constraint(
                    descriptor.constraint_type,
                    descriptor.constraint_data,
                    type_of(descriptor),
                ) is Ok {
                    law_alarm_bits_fit(
                        descriptor.constraint_type,
                        descriptor.constraint_data,
                        type_of(descriptor),
                    );
                    let constraint = parsed_constraint(
                        descriptor.constraint_type,
                        descriptor.constraint_data,
                        type_of(descriptor),
                    )->Ok_0;
                    if constraint is External {
                        let id = constraint->object_id;
                        if objects.contains_key(id) {
                            lemma_external_parameter(descriptor, id, objects[id]);
                        }
                    }
                }
            }
        },
        FetchView::Object { descriptor, object_id, object } => {
            if let Ok(Progress::Done(bytes)) = object_reply(object, content) {
                lemma_external_parameter(descriptor, object_id, bytes);
            }
        },
    }
}

proof fn lemma_external_parameter(descriptor: DescriptorView, object_id: u16, bytes: Seq<u8>)
    ensures
        external_parameter(descriptor, object_id, bytes) matches Ok(parameter) ==> parameter.oid
            == descriptor.oid && alarms_fit(resolved(parameter.constraint)),
{
    if external_parameter(descriptor, object_id, bytes) is Ok {
        law_external_constraint_is_inline(bytes, type_of(descriptor));
    }
}

/// What holds at each step of a discovery: the parameters that are known are those of the first
/// OIDs, in their order, and the one that is asked for is that of the next OID.
pub open spec fn in_order(discovery: DiscoveryView) -> bool {
    match discovery {
        DiscoveryView::Parameters { oids, parameters, current, .. } => {
            &&& parameters.len() < oids.len()
            &&& fetch_oid(current) == oids[parameters.len() as int]
            &&& forall|i: int|
                0 <= i < parameters.len() ==> (#[trigger] parameters[i]).oid == oids[i]
                    && alarms_fit(resolved(parameters[i].constraint))
        },
        DiscoveryView::Menus { catalog, .. } => {
            &&& new_catalog(catalog.parameters) is Ok
            &&& forall|i: int|
                0 <= i < catalog.parameters.len() ==> alarms_fit(
                    resolved((#[trigger] catalog.parameters[i]).constraint),
                )
        },
        _ => true,
    }
}

/// A discovery keeps the parameters in the order of their OIDs, and the catalog that it ends with
/// has distinct OIDs.
pub proof fn law_discovery_keeps_order(
    discovery: DiscoveryView,
    outcome: Result<Seq<u8>, ClientErrorView>,
)
    requires
        in_order(discovery),
    ensures
        discovery_event(discovery, outcome) matches Ok(Progress::More(after)) ==> in_order(after),
        discovery_event(discovery, outcome) matches Ok(Progress::Done(catalog)) ==> new_catalog(
            catalog.parameters,
        ) is Ok && (forall|i: int|
            0 <= i < catalog.parameters.len() ==> alarms_fit(
                resolved((#[trigger] catalog.parameters[i]).constraint),
            )),
{
    if let DiscoveryView::Parameters { oids, objects, parameters, current } = discovery {
        if let Ok(content) = outcome {
            law_fetch_brings_its_parameter(current, objects, content);
            if let Ok(Progress::Done(parameter)) = fetch_reply(current, objects, content) {
                let longer = parameters.push(parameter);
                assert forall|i: int| 0 <= i < longer.len() implies (#[trigger] longer[i]).oid
                    == oids[i] && alarms_fit(resolved(longer[i].constraint)) by {
                    if i < parameters.len() {
                        assert(longer[i] == parameters[i]);
                    }
                }
            }
        }
    }
}

/// Discovery begins in order.
pub proof fn law_discovery_begins_in_order()
    ensures
        in_order(DiscoveryView::Counts { legacy: false }),
{
}

/// Once the menus are being asked for, discovery does not fail, and the parameters stay.
pub proof fn law_menus_do_not_fail_discovery(
    catalog: CatalogView,
    menus: MenusFetchView,
    outcome: Result<Seq<u8>, ClientErrorView>,
)
    ensures
        discovery_event(DiscoveryView::Menus { catalog, menus }, outcome) matches Ok(progress) && (
        match progress {
            Progress::More(after) => after matches DiscoveryView::Menus { catalog: same, .. }
                && same == catalog,
            Progress::Done(found) => found.parameters == catalog.parameters,
        }),
{
}

/// A string OID is ASCII, and fits in a message with its final NUL.
pub proof fn lemma_string_oid_countable(text: Seq<char>)
    requires
        is_string_oid(text),
    ensures
        countable(text),
{
    assert forall|i: int| 0 <= i < text.len() implies '\0' <= #[trigger] text[i]
        <= '\u{7f}' by {
        assert(is_oid_char(text[i]));
    }
    is_ascii_chars_encode_utf8(text);
    let bytes = encode_utf8(text);
    assert forall|i: int| 0 <= i < bytes.len() implies bytes[i] != 0 by {
        assert(is_oid_char(text[i]));
        assert(text[i] as u8 == bytes[i]);
    }
}

/// Every OID that can be read from a text can be asked for.
pub proof fn law_read_oid_can_be_asked_for(text: Seq<char>, address: u8, numeric: u8, string: u8)
    requires
        parsed_oid(text) is Ok,
    ensures
        oid_request(address, parsed_oid(text)->Ok_0, numeric, string) is Ok,
{
    if let OidView::String(name) = parsed_oid(text)->Ok_0 {
        lemma_string_oid_countable(name);
    }
}

/// Numeric OIDs come in the order in which the device has them: a page that goes on where the last
/// one ended is taken as it is.
pub proof fn law_numeric_oids_come_in_order(all: Seq<u16>, from: nat, to: nat)
    requires
        all.len() <= 0xFFFF,
        from < to <= all.len(),
        to - from <= page_size(all.len(), from),
    ensures
        numeric_reply(
            NumericOidsView { count: all.len(), found: all.take(from as int) },
            numeric_page_bytes(
                NumericOidPageView {
                    first: from as u16,
                    oids: all.subrange(from as int, to as int),
                },
            ),
        ) == Ok::<_, ClientErrorView>(
            NumericOidsView { count: all.len(), found: all.take(to as int) },
        ),
{
    let page = NumericOidPageView {
        first: from as u16,
        oids: all.subrange(from as int, to as int),
    };
    law_numeric_page_round_trip(page);
    lemma_numeric_page_taken(
        NumericOidsView { count: all.len(), found: all.take(from as int) },
        numeric_page_bytes(page),
        page,
    );
    lemma_take_more(all, from as int, to as int);
}

proof fn lemma_take_more<T>(all: Seq<T>, from: int, to: int)
    requires
        0 <= from <= to <= all.len(),
    ensures
        all.take(from) + all.subrange(from, to) == all.take(to),
{
    assert(all.take(from) + all.subrange(from, to) =~= all.take(to));
}

proof fn lemma_numeric_page_taken(
    oids: NumericOidsView,
    content: Seq<u8>,
    page: NumericOidPageView,
)
    requires
        parsed_numeric_page(content) == Ok::<_, ProtocolErrorView>(page),
        page_fits(oids.count, oids.found.len(), page.first as nat, page.oids.len()),
    ensures
        numeric_reply(oids, content) == Ok::<_, ClientErrorView>(
            NumericOidsView { count: oids.count, found: oids.found + page.oids },
        ),
{
}

proof fn lemma_string_oids_read(texts: Seq<Seq<char>>, invalid: Seq<char>, numeric: Seq<char>)
    requires
        forall|i: int| 0 <= i < texts.len() ==> is_string_oid(#[trigger] texts[i]),
    ensures
        string_oids_of(texts, invalid, numeric) == Ok::<_, ClientErrorView>(
            texts.map_values(|text: Seq<char>| OidView::String(text)),
        ),
    decreases texts.len(),
{
    let oids = texts.map_values(|text: Seq<char>| OidView::String(text));
    if texts.len() == 0 {
        assert(oids =~= seq![]);
    } else {
        let front = texts.drop_last();
        assert forall|i: int| 0 <= i < front.len() implies is_string_oid(#[trigger] front[i]) by {
            assert(front[i] == texts[i]);
        }
        lemma_string_oids_read(front, invalid, numeric);
        assert(is_string_oid(texts[texts.len() - 1]));
        law_string_oid_round_trip(texts.last());
        assert(oids =~= front.map_values(|text: Seq<char>| OidView::String(text)).push(
            OidView::String(texts.last()),
        ));
    }
}

/// String OIDs come in the order in which the device has them: a page that goes on where the last
/// one ended is taken as it is.
pub proof fn law_string_oids_come_in_order(all: Seq<Seq<char>>, from: nat, to: nat)
    requires
        all.len() <= 0xFFFF_FFFF,
        from < to <= all.len(),
        to - from <= page_size(all.len(), from),
        forall|i: int| 0 <= i < all.len() ==> is_string_oid(#[trigger] all[i]),
    ensures
        ({
            let oids = all.map_values(|text: Seq<char>| OidView::String(text));
            string_reply(
                StringOidsView { count: all.len(), found: oids.take(from as int) },
                string_page_bytes(
                    StringOidPageView {
                        first: from as u32,
                        oids: all.subrange(from as int, to as int),
                    },
                ),
            ) == Ok::<_, ClientErrorView>(
                StringOidsView { count: all.len(), found: oids.take(to as int) },
            )
        }),
{
    let oids = all.map_values(|text: Seq<char>| OidView::String(text));
    let page = StringOidPageView {
        first: from as u32,
        oids: all.subrange(from as int, to as int),
    };
    assert forall|i: int| 0 <= i < page.oids.len() implies countable(#[trigger] page.oids[i])
        && is_string_oid(page.oids[i]) by {
        assert(page.oids[i] == all[from + i]);
        lemma_string_oid_countable(page.oids[i]);
    }
    law_string_page_round_trip(page);
    lemma_string_oids_read(
        page.oids,
        "device returned an invalid string OID"@,
        "device returned a numeric value in its string OID table"@,
    );
    let more = page.oids.map_values(|text: Seq<char>| OidView::String(text));
    assert(more =~= oids.subrange(from as int, to as int));
    lemma_take_more(oids, from as int, to as int);
    lemma_string_page_taken(
        StringOidsView { count: all.len(), found: oids.take(from as int) },
        string_page_bytes(page),
        page,
        more,
    );
}

proof fn lemma_string_page_taken(
    oids: StringOidsView,
    content: Seq<u8>,
    page: StringOidPageView,
    more: Seq<OidView>,
)
    requires
        parsed_string_page(content) == Ok::<_, ProtocolErrorView>(page),
        page_fits(oids.count, oids.found.len(), page.first as nat, page.oids.len()),
        string_oids_of(
            page.oids,
            "device returned an invalid string OID"@,
            "device returned a numeric value in its string OID table"@,
        ) == Ok::<_, ClientErrorView>(more),
    ensures
        string_reply(oids, content) == Ok::<_, ClientErrorView>(
            StringOidsView { count: oids.count, found: oids.found + more },
        ),
{
}

/// The string OIDs of a menu come in the order in which the device has them.
pub proof fn law_menu_oids_come_in_order(
    group: u8,
    menu: u8,
    all: Seq<Seq<char>>,
    from: nat,
    to: nat,
)
    requires
        all.len() <= 0xFFFF,
        from < to <= all.len(),
        to - from <= page_size(all.len(), from),
        forall|i: int| 0 <= i < all.len() ==> is_string_oid(#[trigger] all[i]),
    ensures
        ({
            let oids = all.map_values(|text: Seq<char>| OidView::String(text));
            menu_string_reply(
                MenuStringOidsView {
                    group,
                    menu,
                    count: all.len(),
                    found: oids.take(from as int),
                },
                menu_string_page_bytes(
                    MenuStringOidPageView {
                        group,
                        menu,
                        first: from as u16,
                        oids: all.subrange(from as int, to as int),
                    },
                ),
            ) == Ok::<_, ClientErrorView>(
                MenuStringOidsView { group, menu, count: all.len(), found: oids.take(to as int) },
            )
        }),
{
    let oids = all.map_values(|text: Seq<char>| OidView::String(text));
    let page = MenuStringOidPageView {
        group,
        menu,
        first: from as u16,
        oids: all.subrange(from as int, to as int),
    };
    assert forall|i: int| 0 <= i < page.oids.len() implies countable(#[trigger] page.oids[i])
        && is_string_oid(page.oids[i]) by {
        assert(page.oids[i] == all[from + i]);
        lemma_string_oid_countable(page.oids[i]);
    }
    law_menu_string_page_round_trip(page);
    lemma_string_oids_read(
        page.oids,
        "device returned an invalid menu string OID"@,
        "device returned a numeric OID in a string menu"@,
    );
    let more = page.oids.map_values(|text: Seq<char>| OidView::String(text));
    assert(more =~= oids.subrange(from as int, to as int));
    lemma_take_more(oids, from as int, to as int);
    lemma_menu_page_taken(
        MenuStringOidsView { group, menu, count: all.len(), found: oids.take(from as int) },
        menu_string_page_bytes(page),
        page,
        more,
    );
}

proof fn lemma_menu_page_taken(
    oids: MenuStringOidsView,
    content: Seq<u8>,
    page: MenuStringOidPageView,
    more: Seq<OidView>,
)
    requires
        parsed_menu_string_page(content) == Ok::<_, ProtocolErrorView>(page),
        page.group == oids.group,
        page.menu == oids.menu,
        page_fits(oids.count, oids.found.len(), page.first as nat, page.oids.len()),
        string_oids_of(
            page.oids,
            "device returned an invalid menu string OID"@,
            "device returned a numeric OID in a string menu"@,
        ) == Ok::<_, ClientErrorView>(more),
    ensures
        menu_string_reply(oids, content) == Ok::<_, ClientErrorView>(
            MenuStringOidsView { found: oids.found + more, ..oids },
        ),
{
}

/// A descriptor of a parameter without an external constraint is taken as it is: the parameter is
/// the one that the device describes.
pub proof fn law_described_parameter_is_taken(
    descriptor: DescriptorView,
    constraint: ConstraintView,
    objects: Map<u16, Seq<u8>>,
)
    requires
        describable(descriptor),
        descriptor.version <= 2,
        descriptor.access <= 1,
        parsed_constraint(
            descriptor.constraint_type,
            descriptor.constraint_data,
            type_of(descriptor),
        ) == Ok::<_, ProtocolErrorView>(constraint),
        !(constraint is External),
    ensures
        fetch_reply(
            FetchView::Descriptor(descriptor.oid),
            objects,
            descriptor_bytes(descriptor),
        ) == Ok::<_, ClientErrorView>(
            Progress::<FetchView, ParameterView>::Done(
                parameter_of(descriptor, constraint)->Ok_0,
            ),
        ),
{
    law_descriptor_round_trip(descriptor);
}

} // verus!
