//! What the arguments of a command mean.

use super::error::{missing_value, missing_value_error, CliError, CliErrorView};
use crate::catalog::{
    identity_of, members_among, new_catalog, resolved_in_menu, resolved_menu, resolved_parameter,
    CatalogError, CatalogErrorView, CatalogView, DeviceCatalog, ResolveError, ResolveErrorView,
};
use crate::client::error::{ClientError, ClientErrorView};
use crate::client::exchange::Slot;
use crate::model::{
    parsed_selector, Access, OidView, Parameter, ParameterOid, ParameterRole, ParameterSelector,
    ParameterValue, ParameterView, SelectorView, ValueView,
};
use crate::text::{concat, decimal, parse_unsigned, unsigned_value};
use crate::value::{parse_text, parsed_text};
use crate::views::{
    clone_all, clone_option, lemma_filter_next, lemma_filter_none, option_view, result_view, views,
};
use vstd::prelude::*;
use vstd::string::*;

verus! {

/// The slot that a text names: a number from 1 to 20.
pub open spec fn slot_of(text: Seq<char>) -> Result<u8, Seq<char>> {
    match unsigned_value(text, 10) {
        Some(n) if n <= 255 => if 1 <= n <= 20 {
            Ok(n as u8)
        } else {
            Err("slot must be between 1 and 20, received "@ + decimal(n))
        },
        _ => Err("invalid slot: "@ + text),
    }
}

/// The slot that a text names.
pub fn parse_slot(input: &str) -> (r: Result<Slot, String>)
    ensures
        result_view(r) == slot_of(input@),
{
    match parse_unsigned(input, 10, 255) {
        Some(n) => match Slot::new(n as u8) {
            Ok(slot) => Ok(slot),
            Err(error) => Err(error.to_string()),
        },
        None => Err(concat("invalid slot: ", input)),
    }
}

/// The selector that a text stands for.
pub fn parse_selector(input: &str) -> (r: Result<ParameterSelector, String>)
    ensures
        result_view(r) == parsed_selector(input@),
{
    match ParameterSelector::from_str(input) {
        Ok(selector) => Ok(selector),
        Err(error) => Err(error.to_string()),
    }
}

/// The parameter that a command is about: one of the menu where a menu is given.
pub open spec fn commanded(
    catalog: CatalogView,
    group: Option<Seq<char>>,
    menu: Option<Seq<char>>,
    selector: SelectorView,
) -> Result<ParameterView, ResolveErrorView> {
    match menu {
        Some(menu) => resolved_in_menu(catalog, group, menu, selector),
        None => resolved_parameter(catalog, selector),
    }
}

/// The parameter that a command is about.
pub fn resolve_parameter<'a>(
    catalog: &'a DeviceCatalog,
    group: Option<&str>,
    menu: Option<&str>,
    parameter: &ParameterSelector,
) -> (r: Result<&'a Parameter, ResolveError>)
    ensures
        result_view(r) == commanded(
            catalog@,
            option_view(group),
            option_view(menu),
            parameter@,
        ),
{
    match menu {
        Some(menu) => catalog.resolve_in_menu(group, menu, parameter),
        None => catalog.resolve(parameter),
    }
}

/// The OID of the one parameter that a command needs, where it is given as such and no menu is: the
/// device need not be discovered for it.
pub open spec fn direct(
    group: Option<Seq<char>>,
    menu: Option<Seq<char>>,
    selector: SelectorView,
) -> Option<OidView> {
    match selector {
        SelectorView::Oid(oid) => if group is None && menu is None {
            Some(oid)
        } else {
            None
        },
        _ => None,
    }
}

/// The OID of the one parameter that a command needs, where it is given as such and no menu is: the
/// device need not be discovered for it.
pub fn direct_oid<'a>(
    group: Option<&str>,
    menu: Option<&str>,
    parameter: &'a ParameterSelector,
) -> (r: Option<&'a ParameterOid>)
    ensures
        option_view(r) == direct(option_view(group), option_view(menu), parameter@),
{
    if group.is_some() || menu.is_some() {
        return None;
    }
    match parameter {
        ParameterSelector::Oid(oid) => Some(oid),
        _ => None,
    }
}

/// Whether a parameter is not layout.
pub open spec fn operational() -> spec_fn(ParameterView) -> bool {
    |parameter: ParameterView| parameter.role == ParameterRole::Operational
}

/// The parameters that are listed: the one that is selected, those of the menu that is given, or
/// all. A table of all leaves layout out.
pub open spec fn listed(
    catalog: CatalogView,
    group: Option<Seq<char>>,
    menu: Option<Seq<char>>,
    selector: Option<SelectorView>,
    table: bool,
) -> Result<Seq<ParameterView>, ResolveErrorView> {
    match (menu, selector) {
        (None, None) => Ok(
            if table {
                catalog.parameters.filter(operational())
            } else {
                catalog.parameters
            },
        ),
        (Some(menu), None) => match resolved_menu(catalog, group, menu) {
            Ok(place) => Ok(members_among(catalog.parameters, place.1.members)),
            Err(error) => Err(error),
        },
        (_, Some(selector)) => match commanded(catalog, group, menu, selector) {
            Ok(parameter) => Ok(seq![parameter]),
            Err(error) => Err(error),
        },
    }
}

fn all_parameters(catalog: &DeviceCatalog, table: bool) -> (r: Vec<&Parameter>)
    ensures
        views(r@) == (if table {
            catalog@.parameters.filter(operational())
        } else {
            catalog@.parameters
        }),
{
    let mut r: Vec<&Parameter> = Vec::new();
    let mut i: usize = 0;
    let ghost all = catalog@.parameters;
    proof {
        assert(views(r@) =~= seq![]);
        lemma_filter_none(all.take(0), operational());
        assert(all.take(0) =~= seq![]);
    }
    while i < catalog.parameters.len()
        invariant
            i <= catalog.parameters@.len(),
            all == catalog@.parameters,
            views(r@) == (if table {
                all.take(i as int).filter(operational())
            } else {
                all.take(i as int)
            }),
        decreases catalog.parameters@.len() - i,
    {
        proof {
            lemma_filter_next(all, i as int, operational());
            assert(all.take(i + 1) =~= all.take(i as int).push(all[i as int]));
        }
        if !table || catalog.parameters[i].role == ParameterRole::Operational {
            let ghost before = r@;
            r.push(&catalog.parameters[i]);
            assert(views(r@) =~= views(before).push(all[i as int]));
        }
        i += 1;
    }
    assert(all.take(i as int) =~= all);
    r
}

/// The parameters that are listed.
pub fn select_parameters<'a>(
    catalog: &'a DeviceCatalog,
    group: Option<&str>,
    menu: Option<&str>,
    parameter: Option<&ParameterSelector>,
    table: bool,
) -> (r: Result<Vec<&'a Parameter>, ResolveError>)
    ensures
        match r {
            Ok(parameters) => listed(
                catalog@,
                option_view(group),
                option_view(menu),
                option_view(parameter),
                table,
            ) == Ok::<_, ResolveErrorView>(views(parameters@)),
            Err(error) => listed(
                catalog@,
                option_view(group),
                option_view(menu),
                option_view(parameter),
                table,
            ) == Err::<Seq<ParameterView>, _>(error@),
        },
{
    match (menu, parameter) {
        (None, None) => Ok(all_parameters(catalog, table)),
        (Some(menu), None) => match catalog.resolve_menu(group, menu) {
            Ok((_, menu)) => Ok(catalog.parameters_in_menu(menu)),
            Err(error) => Err(error),
        },
        (menu, Some(selector)) => match resolve_parameter(catalog, group, menu, selector) {
            Ok(parameter) => {
                let mut r: Vec<&'a Parameter> = Vec::new();
                r.push(parameter);
                assert(views(r@) =~= seq![parameter@]);
                Ok(r)
            },
            Err(error) => Err(error),
        },
    }
}

/// A catalog of some of the parameters, with all the menus.
pub open spec fn selection(catalog: CatalogView, parameters: Seq<ParameterView>) -> Result<
    CatalogView,
    CatalogErrorView,
> {
    match new_catalog(parameters) {
        Ok(_) => Ok(CatalogView { parameters, ..catalog }),
        Err(error) => Err(error),
    }
}

/// A catalog of some of the parameters, with all the menus.
pub fn select_catalog(catalog: &DeviceCatalog, parameters: &[&Parameter]) -> (r: Result<
    DeviceCatalog,
    CatalogError,
>)
    ensures
        result_view(r) == selection(catalog@, views(parameters@)),
{
    let mut copies: Vec<Parameter> = Vec::new();
    let mut i: usize = 0;
    let ghost all = views(parameters@);
    while i < parameters.len()
        invariant
            i <= parameters@.len(),
            all == views(parameters@),
            views(copies@) =~= all.take(i as int),
        decreases parameters@.len() - i,
    {
        let copy = parameters[i].clone();
        let ghost before = copies@;
        let ghost view = copy@;
        copies.push(copy);
        assert(views(copies@) =~= views(before).push(view));
        assert(view == all[i as int]);
        i += 1;
    }
    assert(views(copies@) =~= all);
    match DeviceCatalog::new(copies) {
        Ok(mut selected) => {
            let groups = clone_all(&catalog.menus);
            let error = clone_option(&catalog.menu_discovery_error);
            let incomplete = crate::bytes::tail_of(&catalog.incomplete_menu_groups, 0);
            assert(incomplete@ =~= catalog@.incomplete_menu_groups);
            selected.set_menus(groups, error, incomplete);
            Ok(selected)
        },
        Err(error) => Err(error),
    }
}

/// The value that a command writes.
pub open spec fn value_to_write(parameter: ParameterView, value: Option<Seq<char>>) -> Result<
    ValueView,
    CliErrorView,
> {
    if parameter.access == Access::ReadOnly {
        Err(CliErrorView::Client(ClientErrorView::ReadOnly(identity_of(parameter))))
    } else {
        match value {
            None => Err(missing_value(parameter)),
            Some(text) => match parsed_text(parameter, text) {
                Ok(value) => Ok(value),
                Err(error) => Err(CliErrorView::Value(error)),
            },
        }
    }
}

/// The value that a command writes.
pub fn prepare_write(parameter: &Parameter, value: Option<&str>) -> (r: Result<
    ParameterValue,
    CliError,
>)
    ensures
        result_view(r) == value_to_write(parameter@, option_view(value)),
{
    if parameter.access == Access::ReadOnly {
        return Err(CliError::Client(ClientError::ReadOnly(parameter.identity())));
    }
    match value {
        None => Err(missing_value_error(parameter)),
        Some(text) => match parse_text(parameter, text) {
            Ok(value) => Ok(value),
            Err(error) => Err(CliError::Value(error)),
        },
    }
}

} // verus!
