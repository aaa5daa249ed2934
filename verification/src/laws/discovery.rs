//! Laws of discovery: every OID that a device has is asked for, and every parameter and menu that
//! is found stands in the catalog.

use crate::catalog::{new_catalog, CatalogView};
use crate::client::discovery::{discovery_ask, discovery_event, DiscoveryView};
use crate::client::error::{code_text, ClientErrorView};
use crate::client::exchange::CorrelationView;
use crate::client::fetch::{
    fetch_reply, object_ask, object_reply, objects_after, ExternalObjectView, FetchView, Progress,
};
use crate::client::menus::{menus_event, new_menus, FoundMenusView, MenusFetchView};
use crate::client::oids::{numeric_reply, string_reply, NumericOidsView, StringOidsView};
use crate::model::{ConstraintView, OidView, ParameterView};
use crate::protocol::constraint::{parsed_constraint, parsed_external};
use crate::protocol::descriptor::{parameter_of, parsed_descriptor, type_of, DescriptorView};
use crate::protocol::error::ProtocolErrorView;
use crate::protocol::response::{parsed_counts, parsed_fragment, FragmentView, ParameterCounts};
use vstd::prelude::*;

verus! {

/// The device is first asked how many parameters it has. A device that refuses that as unknown or
/// as too long is asked once more, for its numeric OIDs alone; any other refusal ends the
/// discovery.
pub proof fn law_counts_are_asked_for(legacy: bool, content: Seq<u8>, address: u8)
    ensures
        discovery_ask(DiscoveryView::Counts { legacy }, address) matches Some(Ok(ask))
            && ask.request.destination == address && ask.request.source == 0
            && ask.request.message_type == 0x45 && ask.request.content == (if legacy {
            seq![0u8]
        } else {
            seq![0u8, 1u8]
        }) && ask.attempts == 3,
        content.len() > 0 && content[0] != 0 ==> discovery_event(
            DiscoveryView::Counts { legacy },
            Ok(content),
        ) == (if !legacy && content[0] <= 2 {
            Ok(
                Progress::<DiscoveryView, CatalogView>::More(DiscoveryView::Counts { legacy: true }),
            )
        } else {
            Err(
                ClientErrorView::Remote { code: content[0], description: code_text(content[0]) },
            )
        }),
{
}

/// Whether a discovery asks for the string OIDs of a device next, or where it has none for its
/// parameters, or where it has none of those for its menus.
pub open spec fn goes_on(
    after: Result<Progress<DiscoveryView, CatalogView>, ClientErrorView>,
    numeric: Seq<OidView>,
    strings: u32,
) -> bool {
    &&& strings > 0 ==> (after matches Ok(
        Progress::More(DiscoveryView::Strings { numeric: kept, oids }),
    ) && kept == numeric && oids.count == strings && oids.found.len() == 0)
    &&& strings == 0 ==> asks_for_parameters(after, numeric)
}

/// Whether a discovery asks for the parameters with these OIDs next, from the first on.
pub open spec fn asks_for_parameters(
    after: Result<Progress<DiscoveryView, CatalogView>, ClientErrorView>,
    oids: Seq<OidView>,
) -> bool {
    &&& oids.len() > 0 ==> (after matches Ok(
        Progress::More(
            DiscoveryView::Parameters { oids: kept, objects, parameters, current },
        ),
    ) && kept == oids && objects.dom().is_empty() && parameters.len() == 0 && current
        == FetchView::Descriptor(oids[0]))
    &&& oids.len() == 0 ==> asks_for_menus(after, seq![])
}

/// Whether a discovery asks for the menus next, with these parameters in the catalog.
pub open spec fn asks_for_menus(
    after: Result<Progress<DiscoveryView, CatalogView>, ClientErrorView>,
    parameters: Seq<ParameterView>,
) -> bool {
    after matches Ok(Progress::More(DiscoveryView::Menus { catalog, menus })) && catalog.parameters
        == parameters && catalog.menus.len() == 0 && menus == new_menus()
}

/// As many OIDs are asked for as the device says it has: the numeric ones first, then the string
/// ones. A device that says it has more than 100000 is refused.
pub proof fn law_as_many_oids_are_asked_for_as_there_are(
    legacy: bool,
    content: Seq<u8>,
    counts: ParameterCounts,
)
    requires
        parsed_counts(content) == Ok::<_, ProtocolErrorView>(counts),
    ensures
        ({
            let after = discovery_event(DiscoveryView::Counts { legacy }, Ok(content));
            &&& counts.numeric + counts.string > 100_000 ==> after is Err
            &&& counts.numeric + counts.string <= 100_000 && counts.numeric > 0 ==> (
            after matches Ok(Progress::More(DiscoveryView::Numeric { oids, strings }))
                && oids.count == counts.numeric && oids.found.len() == 0 && strings
                == counts.string)
            &&& counts.string <= 100_000 && counts.numeric == 0 ==> goes_on(
                after,
                seq![],
                counts.string,
            )
        }),
{
}

/// Once all numeric OIDs are known the string ones are asked for, and no numeric one is lost.
pub proof fn law_numeric_oids_are_kept(
    oids: NumericOidsView,
    strings: u32,
    content: Seq<u8>,
    found: NumericOidsView,
)
    requires
        numeric_reply(oids, content) == Ok::<_, ClientErrorView>(found),
    ensures
        ({
            let after = discovery_event(DiscoveryView::Numeric { oids, strings }, Ok(content));
            &&& found.found.len() < found.count ==> after == Ok::<_, ClientErrorView>(
                Progress::<DiscoveryView, CatalogView>::More(
                    DiscoveryView::Numeric { oids: found, strings },
                ),
            )
            &&& found.found.len() >= found.count ==> goes_on(
                after,
                Seq::new(found.found.len(), |i: int| OidView::Numeric(found.found[i])),
                strings,
            )
        }),
{
    assert(found.found.map_values(|oid: u16| OidView::Numeric(oid)) =~= Seq::new(
        found.found.len(),
        |i: int| OidView::Numeric(found.found[i]),
    ));
}

/// Once all string OIDs are known the parameters are asked for: those with numeric OIDs first, and
/// then those with string OIDs.
pub proof fn law_string_oids_come_behind_the_numeric_ones(
    numeric: Seq<OidView>,
    oids: StringOidsView,
    content: Seq<u8>,
    found: StringOidsView,
)
    requires
        string_reply(oids, content) == Ok::<_, ClientErrorView>(found),
    ensures
        ({
            let after = discovery_event(DiscoveryView::Strings { numeric, oids }, Ok(content));
            &&& found.found.len() < found.count ==> after == Ok::<_, ClientErrorView>(
                Progress::<DiscoveryView, CatalogView>::More(
                    DiscoveryView::Strings { numeric, oids: found },
                ),
            )
            &&& found.found.len() >= found.count ==> asks_for_parameters(
                after,
                numeric + found.found,
            )
        }),
{
}

/// A parameter that is found is kept behind those that are known, and the one with the next OID is
/// asked for. Once all are found they stand in the catalog, and the menus are asked for.
pub proof fn law_found_parameter_is_kept(
    oids: Seq<OidView>,
    objects: Map<u16, Seq<u8>>,
    parameters: Seq<ParameterView>,
    current: FetchView,
    content: Seq<u8>,
    found: ParameterView,
)
    requires
        fetch_reply(current, objects, content) == Ok::<_, ClientErrorView>(
            Progress::<FetchView, ParameterView>::Done(found),
        ),
    ensures
        ({
            let more = parameters + seq![found];
            let after = discovery_event(
                DiscoveryView::Parameters { oids, objects, parameters, current },
                Ok(content),
            );
            &&& more.len() < oids.len() ==> (after matches Ok(
                Progress::More(
                    DiscoveryView::Parameters { oids: same, parameters: kept, current: next, .. },
                ),
            ) && same == oids && kept == more && next == FetchView::Descriptor(
                oids[more.len() as int],
            ))
            &&& more.len() >= oids.len() && new_catalog(more) is Ok ==> asks_for_menus(after, more)
            &&& more.len() >= oids.len() && new_catalog(more) is Err ==> after is Err
        }),
{
    assert(parameters.push(found) =~= parameters + seq![found]);
}

/// What comes before a parameter is known loses none of those that are.
pub proof fn law_parameter_in_progress_loses_nothing(
    oids: Seq<OidView>,
    objects: Map<u16, Seq<u8>>,
    parameters: Seq<ParameterView>,
    current: FetchView,
    content: Seq<u8>,
    next: FetchView,
)
    requires
        fetch_reply(current, objects, content) == Ok::<_, ClientErrorView>(
            Progress::<FetchView, ParameterView>::More(next),
        ),
    ensures
        discovery_event(
            DiscoveryView::Parameters { oids, objects, parameters, current },
            Ok(content),
        ) matches Ok(
            Progress::More(
                DiscoveryView::Parameters {
                    oids: same,
                    parameters: kept,
                    current: after,
                    objects: known,
                },
            ),
        ) && same == oids && kept == parameters && after == next && objects.submap_of(known),
        objects.submap_of(objects_after(current, objects, content)),
{
    law_complete_object_is_remembered(current, objects, content);
}

/// The catalog that a discovery ends with has the parameters that were found, the menus that were
/// found, and what failed.
pub proof fn law_catalog_is_what_was_found(
    catalog: CatalogView,
    menus: MenusFetchView,
    outcome: Result<Seq<u8>, ClientErrorView>,
    found: FoundMenusView,
)
    requires
        menus_event(menus, outcome) == Progress::<MenusFetchView, FoundMenusView>::Done(found),
    ensures
        discovery_event(DiscoveryView::Menus { catalog, menus }, outcome) matches Ok(
            Progress::Done(complete),
        ) && complete.parameters == catalog.parameters && complete.menus == found.groups
            && complete.menu_discovery_error == found.error && complete.incomplete_menu_groups
            == found.incomplete,
{
}

/// A request that fails before the menus ends the discovery with what failed.
pub proof fn law_failure_ends_discovery(discovery: DiscoveryView, error: ClientErrorView)
    requires
        !(discovery is Menus),
    ensures
        discovery_event(discovery, Err(error)) == Err::<Progress<DiscoveryView, CatalogView>, _>(
            error,
        ),
{
}

/// A fragment that was asked for is put behind those that came before. The object is complete
/// where no fragment follows, or where its first two bytes are not those of a constraint;
/// elsewhere the fragment that follows is asked for.
pub proof fn law_fragment_is_put_behind_the_others(
    object: ExternalObjectView,
    content: Seq<u8>,
    fragment: FragmentView,
)
    requires
        parsed_fragment(content) == Ok::<_, ProtocolErrorView>(fragment),
        object.seen.len() < 4096,
        !object.seen.contains(object.requested),
    ensures
        ({
            let bytes = object.bytes + fragment.data;
            let expected = fragment.oid == object.object_id && fragment.fragment
                == object.requested && bytes.len() <= 1024 * 1024;
            match object_reply(object, content) {
                Err(_) => !expected,
                Ok(Progress::Done(all)) => expected && all == bytes && (fragment.next == 0 || (
                bytes.len() >= 2 && !(bytes[0] == 0 && bytes[1] == 1))),
                Ok(Progress::More(after)) => expected && after.bytes == bytes && after.object_id
                    == object.object_id && after.requested == fragment.next && fragment.next != 0
                    && (bytes.len() >= 2 ==> bytes[0] == 0 && bytes[1] == 1),
            }
        }),
{
}

/// A fragment is asked for by the number of its object and its own; the first one has the number
/// zero.
pub proof fn law_request_for_a_fragment(object: ExternalObjectView, address: u8)
    requires
        object.seen.len() < 4096,
        !object.seen.contains(object.requested),
    ensures
        object_ask(object, address) matches Ok(ask) && ask.request.source == 0
            && ask.request.destination == address && ask.request.message_type == 0x59
            && ask.request.content == seq![
            0u8,
            (object.object_id / 0x100) as u8,
            (object.object_id % 0x100) as u8,
            (object.requested / 0x100) as u8,
            (object.requested % 0x100) as u8,
        ] && ask.attempts == 3 && ask.correlation == (CorrelationView::ExternalObject {
            oid: object.object_id,
            fragment: object.requested,
        }),
{
    let ask = object_ask(object, address)->Ok_0;
    assert(ask.request.content =~= seq![
        0u8,
        (object.object_id / 0x100) as u8,
        (object.object_id % 0x100) as u8,
        (object.requested / 0x100) as u8,
        (object.requested % 0x100) as u8,
    ]);
}

/// A parameter whose constraint stands in an object that is not known is found once the object is;
/// one whose object is known is found at once, with the constraint that the object holds.
pub proof fn law_external_constraint_is_fetched_once(
    oid: OidView,
    objects: Map<u16, Seq<u8>>,
    content: Seq<u8>,
    descriptor: DescriptorView,
    object_id: u16,
)
    requires
        parsed_descriptor(content, oid) == Ok::<_, ProtocolErrorView>(
            descriptor,
        ),
        parsed_constraint(
            descriptor.constraint_type,
            descriptor.constraint_data,
            type_of(descriptor),
        ) matches Ok(ConstraintView::External { object_id: id, .. }) && id == object_id,
    ensures
        !objects.contains_key(object_id) ==> (fetch_reply(
            FetchView::Descriptor(oid),
            objects,
            content,
        ) matches Ok(
            Progress::More(FetchView::Object { descriptor: kept, object_id: id, object }),
        ) && kept == descriptor && id == object_id && object.object_id == object_id
            && object.requested == 0 && object.bytes.len() == 0 && object.seen.is_empty()),
        objects.contains_key(object_id) ==> match parsed_external(
            objects[object_id],
            type_of(descriptor),
        ) {
            Err(error) => fetch_reply(FetchView::Descriptor(oid), objects, content) == Err::<
                Progress<FetchView, ParameterView>,
                _,
            >(ClientErrorView::Protocol(error)),
            Ok(resolved) => match parameter_of(
                descriptor,
                ConstraintView::External { object_id, resolved: Box::new(resolved) },
            ) {
                Ok(parameter) => fetch_reply(FetchView::Descriptor(oid), objects, content) == Ok::<
                    _,
                    ClientErrorView,
                >(Progress::<FetchView, ParameterView>::Done(parameter)),
                Err(_) => fetch_reply(FetchView::Descriptor(oid), objects, content) is Err,
            },
        },
{
}

/// An object that comes is used as if it had been known before.
pub proof fn law_object_that_comes_is_used(
    descriptor: DescriptorView,
    object_id: u16,
    object: ExternalObjectView,
    objects: Map<u16, Seq<u8>>,
    content: Seq<u8>,
    bytes: Seq<u8>,
    description: Seq<u8>,
)
    requires
        object_reply(object, content) == Ok::<_, ClientErrorView>(
            Progress::<ExternalObjectView, Seq<u8>>::Done(bytes),
        ),
        parsed_descriptor(description, descriptor.oid) == Ok::<
            _,
            ProtocolErrorView,
        >(descriptor),
        parsed_constraint(
            descriptor.constraint_type,
            descriptor.constraint_data,
            type_of(descriptor),
        ) matches Ok(ConstraintView::External { object_id: id, .. }) && id == object_id,
    ensures
        fetch_reply(FetchView::Object { descriptor, object_id, object }, objects, content)
            == fetch_reply(
            FetchView::Descriptor(descriptor.oid),
            objects.insert(object_id, bytes),
            description,
        ),
{
}

/// An object is remembered once it is complete, and none is forgotten.
pub proof fn law_complete_object_is_remembered(
    fetch: FetchView,
    objects: Map<u16, Seq<u8>>,
    content: Seq<u8>,
)
    ensures
        forall|id: u16| #[trigger]
            objects.contains_key(id) && !(fetch matches FetchView::Object { object_id, .. }
                && object_id == id) ==> objects_after(fetch, objects, content).contains_key(id)
                && objects_after(fetch, objects, content)[id] == objects[id],
        fetch matches FetchView::Object { object_id, object, .. } ==> (object_reply(
            object,
            content,
        ) matches Ok(Progress::Done(bytes)) ==> objects_after(fetch, objects, content).contains_key(
            object_id,
        ) && objects_after(fetch, objects, content)[object_id] == bytes),
        !(fetch matches FetchView::Object { object, .. } && object_reply(object, content) matches Ok(
            Progress::Done(_),
        )) ==> objects_after(fetch, objects, content) == objects,
{
}

} // verus!
