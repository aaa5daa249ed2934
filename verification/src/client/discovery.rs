//! All that a device has: how many parameters, their OIDs, the parameters, and the menus.

use super::error::{from_response, unusable, ClientError, ClientErrorView};
use super::exchange::{Ask, AskView, Correlation, CorrelationView, ATTEMPTS};
use super::fetch::{
    fetch_ask, fetch_reply, objects_after, ExternalObjects, Fetch, FetchView, Progress,
};
use super::menus::{
    group_ask, menus_event, new_menus, outcome_view, FoundMenusView, MenusFetch, MenusFetchView,
};
use super::oids::{
    numeric_ask, numeric_reply, string_ask, string_reply, NumericOids, NumericOidsView, StringOids,
    StringOidsView,
};
use crate::catalog::{new_catalog, CatalogView, DeviceCatalog};
use crate::model::{OidView, Parameter, ParameterOid, ParameterView};
use crate::protocol::error::{ProtocolError, ProtocolErrorView};
use crate::protocol::frame::Frame;
use crate::protocol::request::{num_params_request, request_of, GET_NUMPARAMS};
use crate::protocol::response::{parsed_counts, ParameterCounts};
use crate::views::{result_view, views};
use vstd::prelude::*;

verus! {

/// How many parameters a device may have.
pub const MAX_PARAMETERS: usize = 100_000;

/// How far a device is known.
#[derive(Debug)]
enum Stage {
    Counts { legacy: bool },
    Numeric { oids: NumericOids, strings: u32 },
    Strings { numeric: Vec<ParameterOid>, oids: StringOids },
    Parameters {
        oids: Vec<ParameterOid>,
        objects: ExternalObjects,
        parameters: Vec<Parameter>,
        current: Fetch,
    },
    Menus { catalog: DeviceCatalog, menus: MenusFetch },
}

/// A device that is asked for all that it has.
#[derive(Debug)]
pub struct Discovery {
    stage: Stage,
}

/// How far a device is known: not at all, some of its numeric OIDs, some of its string OIDs, some
/// of its parameters, or some of its menus.
pub enum DiscoveryView {
    Counts { legacy: bool },
    Numeric { oids: NumericOidsView, strings: u32 },
    Strings { numeric: Seq<OidView>, oids: StringOidsView },
    Parameters {
        oids: Seq<OidView>,
        objects: Map<u16, Seq<u8>>,
        parameters: Seq<ParameterView>,
        current: FetchView,
    },
    Menus { catalog: CatalogView, menus: MenusFetchView },
}

impl View for Discovery {
    type V = DiscoveryView;

    closed spec fn view(&self) -> DiscoveryView {
        match self.stage {
            Stage::Counts { legacy } => DiscoveryView::Counts { legacy },
            Stage::Numeric { oids, strings } => DiscoveryView::Numeric { oids: oids@, strings },
            Stage::Strings { numeric, oids } => DiscoveryView::Strings {
                numeric: views(numeric@),
                oids: oids@,
            },
            Stage::Parameters { oids, objects, parameters, current } => DiscoveryView::Parameters {
                oids: views(oids@),
                objects: objects@,
                parameters: views(parameters@),
                current: current@,
            },
            Stage::Menus { catalog, menus } => DiscoveryView::Menus {
                catalog: catalog@,
                menus: menus@,
            },
        }
    }
}

/// What comes of a response: another request, the catalog, or an error.
pub type Discovered = Result<Progress<DiscoveryView, CatalogView>, ClientErrorView>;

/// The request for the counts. Devices that know only numeric OIDs refuse the first form of it.
pub open spec fn counts_ask(legacy: bool, address: u8) -> AskView {
    AskView {
        request: request_of(
            address,
            GET_NUMPARAMS,
            if legacy {
                seq![0u8]
            } else {
                seq![0u8, 1u8]
            },
        ),
        attempts: ATTEMPTS,
        correlation: CorrelationView::Any,
    }
}

/// The next request; none where there is none to make.
pub open spec fn discovery_ask(discovery: DiscoveryView, address: u8) -> Option<
    Result<AskView, ClientErrorView>,
> {
    match discovery {
        DiscoveryView::Counts { legacy } => Some(Ok(counts_ask(legacy, address))),
        DiscoveryView::Numeric { oids, .. } => match numeric_ask(oids, address) {
            Some(ask) => Some(Ok(ask)),
            None => None,
        },
        DiscoveryView::Strings { oids, .. } => match string_ask(oids, address) {
            Some(ask) => Some(Ok(ask)),
            None => None,
        },
        DiscoveryView::Parameters { current, .. } => Some(fetch_ask(current, address)),
        DiscoveryView::Menus { menus, .. } => match group_ask(menus.current, address) {
            Some(ask) => Some(Ok(ask)),
            None => None,
        },
    }
}

/// With the parameters known, the menus are next. No two parameters may share an OID.
pub open spec fn begin_menus(parameters: Seq<ParameterView>) -> Discovered {
    match new_catalog(parameters) {
        Err(error) => Err(ClientErrorView::Catalog(error)),
        Ok(catalog) => Ok(Progress::More(DiscoveryView::Menus { catalog, menus: new_menus() })),
    }
}

/// With the OIDs known, the parameters are next, in the order of the OIDs.
pub open spec fn begin_parameters(oids: Seq<OidView>) -> Discovered {
    if oids.len() == 0 {
        begin_menus(seq![])
    } else {
        Ok(
            Progress::More(
                DiscoveryView::Parameters {
                    oids,
                    objects: Map::empty(),
                    parameters: seq![],
                    current: FetchView::Descriptor(oids[0]),
                },
            ),
        )
    }
}

/// With the numeric OIDs known, the string OIDs are next.
pub open spec fn begin_strings(numeric: Seq<OidView>, strings: u32) -> Discovered {
    if strings == 0 {
        begin_parameters(numeric)
    } else {
        Ok(
            Progress::More(
                DiscoveryView::Strings {
                    numeric,
                    oids: StringOidsView { count: strings as nat, found: seq![] },
                },
            ),
        )
    }
}

/// With the counts known, the numeric OIDs are next. There is a limit to what a device may have.
pub open spec fn begin_oids(counts: ParameterCounts) -> Discovered {
    if counts.numeric + counts.string > usize::MAX {
        unusable("device parameter count exceeds this platform"@)
    } else if counts.numeric + counts.string > MAX_PARAMETERS {
        unusable("device parameter count exceeds the 100,000 parameter safety limit"@)
    } else if counts.numeric == 0 {
        begin_strings(seq![], counts.string)
    } else {
        Ok(
            Progress::More(
                DiscoveryView::Numeric {
                    oids: NumericOidsView { count: counts.numeric as nat, found: seq![] },
                    strings: counts.string,
                },
            ),
        )
    }
}

/// The catalog with its menus.
pub open spec fn with_menus(catalog: CatalogView, found: FoundMenusView) -> CatalogView {
    CatalogView {
        parameters: catalog.parameters,
        menus: found.groups,
        menu_discovery_error: found.error,
        incomplete_menu_groups: found.incomplete,
    }
}

/// What the outcome of a request brings. Only menus can fail without the whole failing.
pub open spec fn discovery_event(
    discovery: DiscoveryView,
    outcome: Result<Seq<u8>, ClientErrorView>,
) -> Discovered {
    match (discovery, outcome) {
        (DiscoveryView::Menus { catalog, menus }, _) => Ok(
            match menus_event(menus, outcome) {
                Progress::More(menus) => Progress::More(DiscoveryView::Menus { catalog, menus }),
                Progress::Done(found) => Progress::Done(with_menus(catalog, found)),
            },
        ),
        (_, Err(error)) => Err(error),
        (DiscoveryView::Counts { legacy }, Ok(content)) => match parsed_counts(content) {
            Ok(counts) => begin_oids(counts),
            Err(error) => if !legacy && (error == ProtocolErrorView::Remote(1) || error
                == ProtocolErrorView::Remote(2)) {
                Ok(Progress::More(DiscoveryView::Counts { legacy: true }))
            } else {
                Err(from_response(error))
            },
        },
        (DiscoveryView::Numeric { oids, strings }, Ok(content)) => match numeric_reply(
            oids,
            content,
        ) {
            Err(error) => Err(error),
            Ok(oids) => if oids.found.len() >= oids.count {
                begin_strings(oids.found.map_values(|oid: u16| OidView::Numeric(oid)), strings)
            } else {
                Ok(Progress::More(DiscoveryView::Numeric { oids, strings }))
            },
        },
        (DiscoveryView::Strings { numeric, oids }, Ok(content)) => match string_reply(
            oids,
            content,
        ) {
            Err(error) => Err(error),
            Ok(oids) => if oids.found.len() >= oids.count {
                begin_parameters(numeric + oids.found)
            } else {
                Ok(Progress::More(DiscoveryView::Strings { numeric, oids }))
            },
        },
        (DiscoveryView::Parameters { oids, objects, parameters, current }, Ok(content)) => {
            let known = objects_after(current, objects, content);
            match fetch_reply(current, objects, content) {
                Err(error) => Err(error),
                Ok(Progress::More(current)) => Ok(
                    Progress::More(
                        DiscoveryView::Parameters { oids, objects: known, parameters, current },
                    ),
                ),
                Ok(Progress::Done(parameter)) => {
                    let parameters = parameters.push(parameter);
                    if parameters.len() >= oids.len() {
                        begin_menus(parameters)
                    } else {
                        Ok(
                            Progress::More(
                                DiscoveryView::Parameters {
                                    oids,
                                    objects: known,
                                    parameters,
                                    current: FetchView::Descriptor(oids[parameters.len() as int]),
                                },
                            ),
                        )
                    }
                },
            }
        },
    }
}

fn start_menus(parameters: Vec<Parameter>) -> (r: Result<
    Progress<Discovery, DeviceCatalog>,
    ClientError,
>)
    ensures
        result_view(r) == begin_menus(views(parameters@)),
{
    match DeviceCatalog::new(parameters) {
        Err(error) => Err(ClientError::Catalog(error)),
        Ok(catalog) => {
            let stage = Stage::Menus { catalog, menus: MenusFetch::new() };
            Ok(Progress::More(Discovery { stage }))
        },
    }
}

fn start_parameters(oids: Vec<ParameterOid>) -> (r: Result<
    Progress<Discovery, DeviceCatalog>,
    ClientError,
>)
    ensures
        result_view(r) == begin_parameters(views(oids@)),
{
    let parameters: Vec<Parameter> = Vec::new();
    assert(views(parameters@) =~= seq![]);
    if oids.len() == 0 {
        return start_menus(parameters);
    }
    let current = Fetch::Descriptor(oids[0].clone());
    let stage = Stage::Parameters { oids, objects: ExternalObjects::new(), parameters, current };
    Ok(Progress::More(Discovery { stage }))
}

fn start_strings(numeric: Vec<ParameterOid>, strings: u32) -> (r: Result<
    Progress<Discovery, DeviceCatalog>,
    ClientError,
>)
    ensures
        result_view(r) == begin_strings(views(numeric@), strings),
{
    if strings == 0 {
        return start_parameters(numeric);
    }
    let stage = Stage::Strings { numeric, oids: StringOids::new(strings) };
    Ok(Progress::More(Discovery { stage }))
}

fn start_oids(counts: ParameterCounts) -> (r: Result<
    Progress<Discovery, DeviceCatalog>,
    ClientError,
>)
    ensures
        result_view(r) == begin_oids(counts),
{
    let total: u64 = counts.numeric as u64 + counts.string as u64;
    if total > usize::MAX as u64 {
        return Err(
            ClientError::InvalidDiscovery("device parameter count exceeds this platform"),
        );
    }
    if total > MAX_PARAMETERS as u64 {
        return Err(
            ClientError::InvalidDiscovery(
                "device parameter count exceeds the 100,000 parameter safety limit",
            ),
        );
    }
    if counts.numeric == 0 {
        let none: Vec<ParameterOid> = Vec::new();
        assert(views(none@) =~= seq![]);
        return start_strings(none, counts.string);
    }
    let stage = Stage::Numeric { oids: NumericOids::new(counts.numeric), strings: counts.string };
    Ok(Progress::More(Discovery { stage }))
}

impl Discovery {
    #[verifier::type_invariant]
    spec fn request_is_due(self) -> bool {
        match self.stage {
            Stage::Numeric { oids, .. } => oids@.found.len() < oids@.count,
            Stage::Strings { oids, .. } => oids@.found.len() < oids@.count,
            Stage::Parameters { oids, parameters, .. } => parameters@.len() < oids@.len(),
            _ => true,
        }
    }

    /// A device of which nothing is known.
    pub fn new() -> (r: Self)
        ensures
            r@ == (DiscoveryView::Counts { legacy: false }),
    {
        Discovery { stage: Stage::Counts { legacy: false } }
    }

    /// The next request.
    pub fn ask(&self, address: u8) -> (r: Result<Ask, ClientError>)
        ensures
            discovery_ask(self@, address) == Some(result_view(r)),
    {
        proof {
            use_type_invariant(self);
        }
        match &self.stage {
            Stage::Counts { legacy } => Ok(
                Ask {
                    request: num_params_request(address, !*legacy),
                    attempts: ATTEMPTS,
                    correlation: Correlation::Any,
                },
            ),
            Stage::Numeric { oids, .. } => Ok(oids.ask(address).unwrap()),
            Stage::Strings { oids, .. } => Ok(oids.ask(address).unwrap()),
            Stage::Parameters { current, .. } => current.ask(address),
            Stage::Menus { menus, .. } => Ok(menus.ask(address)),
        }
    }

    /// Takes the outcome of a request.
    pub fn event(self, outcome: Result<Frame, ClientError>) -> (r: Result<
        Progress<Discovery, DeviceCatalog>,
        ClientError,
    >)
        ensures
            result_view(r) == discovery_event(self@, outcome_view(outcome)),
    {
        proof {
            use_type_invariant(&self);
        }
        match self.stage {
            Stage::Menus { mut catalog, menus } => Ok(
                match menus.event(outcome) {
                    Progress::More(menus) => Progress::More(
                        Discovery { stage: Stage::Menus { catalog, menus } },
                    ),
                    Progress::Done(found) => {
                        catalog.set_menus(found.groups, found.error, found.incomplete);
                        Progress::Done(catalog)
                    },
                },
            ),
            Stage::Counts { legacy } => {
                let frame = match outcome {
                    Ok(frame) => frame,
                    Err(error) => return Err(error),
                };
                match ParameterCounts::parse(&frame) {
                    Ok(counts) => start_oids(counts),
                    Err(ProtocolError::Remote(code)) => if !legacy && (code == 1 || code == 2) {
                        Ok(Progress::More(Discovery { stage: Stage::Counts { legacy: true } }))
                    } else {
                        Err(ClientError::from_protocol(ProtocolError::Remote(code)))
                    },
                    Err(error) => Err(ClientError::from_protocol(error)),
                }
            },
            Stage::Numeric { oids, strings } => {
                let frame = match outcome {
                    Ok(frame) => frame,
                    Err(error) => return Err(error),
                };
                match oids.reply(&frame) {
                    Err(error) => Err(error),
                    Ok(oids) => if oids.is_complete() {
                        start_strings(oids.into_oids(), strings)
                    } else {
                        Ok(Progress::More(Discovery { stage: Stage::Numeric { oids, strings } }))
                    },
                }
            },
            Stage::Strings { mut numeric, oids } => {
                let frame = match outcome {
                    Ok(frame) => frame,
                    Err(error) => return Err(error),
                };
                match oids.reply(&frame) {
                    Err(error) => Err(error),
                    Ok(oids) => if oids.is_complete() {
                        let mut strings = oids.into_oids();
                        let ghost before = views(numeric@);
                        let ghost more = views(strings@);
                        numeric.append(&mut strings);
                        assert(views(numeric@) =~= before + more);
                        start_parameters(numeric)
                    } else {
                        Ok(Progress::More(Discovery { stage: Stage::Strings { numeric, oids } }))
                    },
                }
            },
            Stage::Parameters { oids, mut objects, mut parameters, current } => {
                let frame = match outcome {
                    Ok(frame) => frame,
                    Err(error) => return Err(error),
                };
                match current.reply(&mut objects, &frame) {
                    Err(error) => Err(error),
                    Ok(Progress::More(current)) => {
                        let stage = Stage::Parameters { oids, objects, parameters, current };
                        Ok(Progress::More(Discovery { stage }))
                    },
                    Ok(Progress::Done(parameter)) => {
                        let ghost before = parameters@;
                        let ghost view = parameter@;
                        parameters.push(parameter);
                        assert(views(parameters@) =~= views(before).push(view));
                        if parameters.len() >= oids.len() {
                            return start_menus(parameters);
                        }
                        let current = Fetch::Descriptor(oids[parameters.len()].clone());
                        let stage = Stage::Parameters { oids, objects, parameters, current };
                        Ok(Progress::More(Discovery { stage }))
                    },
                }
            },
        }
    }
}

} // verus!
