//! Laws of finding: what is found is what is meant, and what is meant is found where nothing else
//! may be meant.

use super::guidance::{
    law_name_means_all_it_may, lemma_kept, lemma_kept_none, lemma_kept_once, selected_by,
};
use super::naming::{lemma_members, lemma_with_oid};
use super::output::distinct;
use crate::catalog::{
    all_menus, first_duplicate, group_named, has_index, has_oid, members_among, menu_named,
    new_catalog, path_of, paths_among, paths_of, resolved_member, resolved_menu,
    resolved_parameter, with_oid, CatalogErrorView, CatalogView, MenuGroupView, MenuPathView,
    MenuView, ResolveErrorView,
};
use crate::cli::command::commanded;
use crate::model::{oid_text, parsed_oid, OidView, ParameterView, SelectorView};
use crate::text::fold;
use vstd::prelude::*;

verus! {

/// Whether a selector may mean a parameter: an OID by being its OID, a display name by being its
/// name but for the case of letters, and a text by either.
pub open spec fn means(selector: SelectorView, parameter: ParameterView) -> bool {
    match selector {
        SelectorView::Oid(oid) => parameter.oid == oid,
        SelectorView::DisplayName(name) => fold(parameter.display_name) == fold(name),
        SelectorView::Auto(text) => fold(parameter.display_name) == fold(text) || parsed_oid(text)
            == Ok::<OidView, Seq<char>>(parameter.oid),
    }
}

/// Whether a parameter is one of those given, and the only one of them that is meant.
pub open spec fn is_the_one(
    parameters: Seq<ParameterView>,
    selector: SelectorView,
    parameter: ParameterView,
) -> bool {
    &&& parameters.contains(parameter)
    &&& means(selector, parameter)
    &&& forall|other: ParameterView| #[trigger]
        parameters.contains(other) && means(selector, other) ==> other == parameter
}

proof fn lemma_selected(
    parameters: Seq<ParameterView>,
    selector: SelectorView,
    parameter: ParameterView,
)
    requires
        distinct(parameters),
    ensures
        selected_by(parameters, selector).len() == 1 && selected_by(parameters, selector)[0]
            == parameter <==> is_the_one(parameters, selector, parameter),
        selected_by(parameters, selector).len() == 0 <==> forall|other: ParameterView|
            #[trigger] parameters.contains(other) ==> !means(selector, other),
{
    let matches = selected_by(parameters, selector);
    assert forall|other: ParameterView| #[trigger] parameters.contains(other) implies (means(
        selector,
        other,
    ) <==> matches.contains(other)) by {
        law_name_means_all_it_may(parameters, selector, other);
    }
    law_name_means_all_it_may(parameters, selector, parameter);
    if matches.len() > 0 {
        law_name_means_all_it_may(parameters, selector, matches[0]);
        assert(matches.contains(matches[0]));
    }
    if matches.len() == 1 && matches[0] == parameter {
        assert forall|other: ParameterView| #[trigger]
            parameters.contains(other) && means(selector, other) implies other == parameter by {
            assert(matches.contains(other));
        }
    }
    if is_the_one(parameters, selector, parameter) {
        assert(matches.contains(parameter));
        if matches.len() > 1 {
            law_name_means_all_it_may(parameters, selector, matches[1]);
            assert(matches.contains(matches[1]));
            assert(matches[0].oid != matches[1].oid);
        }
    }
}

/// A parameter is found exactly where it is the only one that is meant. Where none is meant it is
/// said that there is none, and where several are the name is refused with all of them.
pub proof fn law_parameter_is_found_where_it_is_meant(
    catalog: CatalogView,
    selector: SelectorView,
    parameter: ParameterView,
)
    requires
        distinct(catalog.parameters),
    ensures
        resolved_parameter(catalog, selector) == Ok::<_, ResolveErrorView>(parameter)
            <==> is_the_one(catalog.parameters, selector, parameter),
        (resolved_parameter(catalog, selector) is Err && resolved_parameter(
            catalog,
            selector,
        )->Err_0 is NotFound) <==> (forall|other: ParameterView| #[trigger]
            catalog.parameters.contains(other) ==> !means(selector, other)),
        resolved_parameter(catalog, selector) matches Err(error) ==> {
            ||| error is NotFound
            ||| error matches ResolveErrorView::AmbiguousDisplayName { candidates, .. }
                && candidates.len() >= 2
        },
{
    lemma_selected(catalog.parameters, selector, parameter);
    lemma_with_oid_first(catalog.parameters, selector);
}

proof fn lemma_with_oid_first(parameters: Seq<ParameterView>, selector: SelectorView)
    ensures
        selector matches SelectorView::Oid(oid) ==> match with_oid(parameters, oid) {
            Some(parameter) => selected_by(parameters, selector) == seq![parameter],
            None => selected_by(parameters, selector).len() == 0,
        },
{
}

/// In a menu a parameter is found exactly where it is the only one of the menu that is meant.
pub proof fn law_member_is_found_where_it_is_meant(
    catalog: CatalogView,
    place: (MenuGroupView, MenuView),
    selector: SelectorView,
    parameter: ParameterView,
)
    ensures
        ({
            let members = members_among(catalog.parameters, place.1.members);
            let found = resolved_member(catalog, place, selector);
            &&& found == Ok::<_, ResolveErrorView>(parameter) <==> is_the_one(
                members,
                selector,
                parameter,
            )
            &&& (found is Err && found->Err_0 is ParameterNotFoundInMenu) <==> (forall|
                other: ParameterView,
            | #[trigger]
                members.contains(other) ==> !means(selector, other))
        }),
{
    let members = members_among(catalog.parameters, place.1.members);
    lemma_members(catalog.parameters, place.1.members);
    lemma_selected(members, selector, parameter);
    lemma_with_oid_first(members, selector);
}

/// The parameters of a menu are those of the catalog that the menu names: none is left out.
pub proof fn law_menu_leaves_no_member_out(
    parameters: Seq<ParameterView>,
    oids: Seq<OidView>,
    oid: OidView,
)
    requires
        oids.contains(oid),
        has_oid(parameters, oid),
    ensures
        has_oid(members_among(parameters, oids), oid),
    decreases oids.len(),
{
    let front = oids.drop_last();
    let before = members_among(parameters, front);
    let all = members_among(parameters, oids);
    if front.contains(oid) {
        law_menu_leaves_no_member_out(parameters, front, oid);
        let i = choose|i: int| 0 <= i < before.len() && (#[trigger] before[i]).oid == oid;
        assert(all[i].oid == oid);
    } else {
        let k = choose|k: int| 0 <= k < oids.len() && oids[k] == oid;
        if k < front.len() {
            assert(front[k] == oid);
        }
        assert(oids.last() == oid);
        lemma_with_oid(parameters, oid);
        assert(all[before.len() as int].oid == oid);
    }
}

/// The parameters of a menu come in the order in which the menu names them: those of its first
/// OIDs come first.
pub proof fn law_members_come_in_the_order_of_the_menu(
    parameters: Seq<ParameterView>,
    oids: Seq<OidView>,
    more: Seq<OidView>,
)
    ensures
        members_among(parameters, oids).is_prefix_of(members_among(parameters, oids + more)),
    decreases more.len(),
{
    if more.len() == 0 {
        assert(oids + more =~= oids);
    } else {
        law_members_come_in_the_order_of_the_menu(parameters, oids, more.drop_last());
        assert((oids + more).drop_last() =~= oids + more.drop_last());
    }
}

/// Every menu of every group is searched, and nothing else is.
pub proof fn law_every_menu_is_searched(
    groups: Seq<MenuGroupView>,
    group: MenuGroupView,
    menu: MenuView,
)
    ensures
        all_menus(groups).contains((group, menu)) <==> groups.contains(group)
            && group.menus.contains(menu),
    decreases groups.len(),
{
    let all = all_menus(groups);
    if groups.len() > 0 {
        let front = groups.drop_last();
        let before = all_menus(front);
        let last = groups.last();
        let own = last.menus.map_values(|menu: MenuView| (last, menu));
        law_every_menu_is_searched(front, group, menu);
        if all.contains((group, menu)) {
            let i = choose|i: int| 0 <= i < all.len() && all[i] == (group, menu);
            if i < before.len() {
                assert(before[i] == (group, menu));
                let g = choose|g: int| 0 <= g < front.len() && front[g] == group;
                assert(groups[g] == group);
            } else {
                assert(own[i - before.len()] == (group, menu));
                assert(last.menus[i - before.len()] == menu);
                assert(groups[groups.len() - 1] == group);
            }
        }
        if groups.contains(group) && group.menus.contains(menu) {
            let g = choose|g: int| 0 <= g < groups.len() && groups[g] == group;
            let m = choose|m: int| 0 <= m < group.menus.len() && group.menus[m] == menu;
            if g < front.len() {
                assert(front[g] == group);
                let i = choose|i: int| 0 <= i < before.len() && before[i] == (group, menu);
                assert(all[i] == (group, menu));
            } else {
                assert(own[m] == (group, menu));
                assert(all[before.len() + m] == (group, menu));
            }
        }
    }
}

/// Whether a menu has the name, and its group the name that is given for it, but for the case of
/// letters.
pub open spec fn has_names(
    place: (MenuGroupView, MenuView),
    group_name: Option<Seq<char>>,
    menu_name: Seq<char>,
) -> bool {
    &&& fold(place.1.name) == fold(menu_name)
    &&& group_name matches Some(name) ==> fold(place.0.name) == fold(name)
}

/// In a catalog whose menus are all known, the one menu with a name is found.
pub proof fn law_only_menu_with_a_name_is_found(
    catalog: CatalogView,
    menu_name: Seq<char>,
    index: int,
)
    requires
        catalog.incomplete_menu_groups.len() == 0,
        0 <= index < all_menus(catalog.menus).len(),
        has_names(all_menus(catalog.menus)[index], None, menu_name),
        forall|i: int|
            0 <= i < all_menus(catalog.menus).len() && i != index ==> !has_names(
                #[trigger] all_menus(catalog.menus)[i],
                None,
                menu_name,
            ),
    ensures
        resolved_menu(catalog, None, menu_name) == Ok::<_, ResolveErrorView>(
            all_menus(catalog.menus)[index],
        ),
{
    let places = all_menus(catalog.menus);
    let keep = menu_named(None, menu_name);
    lemma_kept(places, keep, index);
    assert forall|i: int, j: int| 0 <= i < j < places.len() implies !(keep(#[trigger] places[i])
        && keep(#[trigger] places[j])) by {
        if i != index {
            assert(!has_names(places[i], None, menu_name));
        } else {
            assert(!has_names(places[j], None, menu_name));
        }
    }
    lemma_kept_once(places, keep);
}

/// Where a group that may hold the menu is not fully known, it is never said that there is no such
/// menu, nor is another one found: it is said that the menus are not available, and why.
pub proof fn law_unknown_menu_is_not_denied(
    catalog: CatalogView,
    group_name: Option<Seq<char>>,
    menu_name: Seq<char>,
    i: int,
)
    requires
        0 <= i < catalog.incomplete_menu_groups.len(),
        group_name is None || !has_index(catalog.menus, catalog.incomplete_menu_groups[i]),
    ensures
        resolved_menu(catalog, group_name, menu_name) matches Err(
            ResolveErrorView::MenusUnavailable(reason),
        ) && (catalog.menu_discovery_error matches Some(error) ==> reason == error),
{
}

/// Whether a path is that of a menu: with its name and that of its group, which is needed exactly
/// where another menu has the name.
pub open spec fn is_path_of(
    catalog: CatalogView,
    path: MenuPathView,
    place: (MenuGroupView, MenuView),
) -> bool {
    &&& path.menu == place.1.name
    &&& path.group == place.0.name
    &&& path.group_required <==> exists|i: int, j: int|
        0 <= i < j < all_menus(catalog.menus).len() && fold(
            (#[trigger] all_menus(catalog.menus)[i]).1.name,
        ) == fold(place.1.name) && fold((#[trigger] all_menus(catalog.menus)[j]).1.name) == fold(
            place.1.name,
        )
}

proof fn lemma_kept_twice<T>(items: Seq<T>, keep: spec_fn(T) -> bool, i: int, j: int)
    requires
        0 <= i < j < items.len(),
        keep(items[i]),
        keep(items[j]),
    ensures
        items.filter(keep).len() >= 2,
    decreases items.len(),
{
    reveal(Seq::filter);
    let front = items.drop_last();
    if j < front.len() {
        lemma_kept_twice(front, keep, i, j);
    } else {
        lemma_kept(front, keep, i);
    }
}

/// A path names a menu, and its group where the name of the menu does not tell it from another.
pub proof fn law_path_is_that_of_the_menu(
    catalog: CatalogView,
    place: (MenuGroupView, MenuView),
)
    ensures
        is_path_of(catalog, path_of(catalog, place), place),
{
    let places = all_menus(catalog.menus);
    let keep = menu_named(None, place.1.name);
    if exists|i: int, j: int|
        0 <= i < j < places.len() && fold((#[trigger] places[i]).1.name) == fold(place.1.name)
            && fold((#[trigger] places[j]).1.name) == fold(place.1.name) {
        let (i, j) = choose|i: int, j: int|
            0 <= i < j < places.len() && fold((#[trigger] places[i]).1.name) == fold(place.1.name)
                && fold((#[trigger] places[j]).1.name) == fold(place.1.name);
        lemma_kept_twice(places, keep, i, j);
    } else {
        assert forall|i: int, j: int| 0 <= i < j < places.len() implies !(keep(
            #[trigger] places[i],
        ) && keep(#[trigger] places[j])) by {
        }
        lemma_kept_once(places, keep);
    }
}

/// The paths of a parameter are those of the menus that name it: of each of them, and of no other.
pub proof fn law_paths_are_those_of_its_menus(
    catalog: CatalogView,
    places: Seq<(MenuGroupView, MenuView)>,
    oid: OidView,
    path: MenuPathView,
)
    ensures
        paths_among(catalog, places, oid).contains(path) <==> exists|i: int|
            0 <= i < places.len() && (#[trigger] places[i]).1.members.contains(oid) && path
                == path_of(catalog, places[i]),
    decreases places.len(),
{
    let all = paths_among(catalog, places, oid);
    if places.len() > 0 {
        let front = places.drop_last();
        let before = paths_among(catalog, front, oid);
        law_paths_are_those_of_its_menus(catalog, front, oid, path);
        if all.contains(path) {
            if before.contains(path) {
                let i = choose|i: int|
                    0 <= i < front.len() && (#[trigger] front[i]).1.members.contains(oid) && path
                        == path_of(catalog, front[i]);
                assert(places[i] == front[i]);
            } else {
                let k = choose|k: int| 0 <= k < all.len() && all[k] == path;
                if k < before.len() {
                    assert(before[k] == path);
                }
                assert(places[places.len() - 1].1.members.contains(oid));
            }
        }
        if exists|i: int|
            0 <= i < places.len() && (#[trigger] places[i]).1.members.contains(oid) && path
                == path_of(catalog, places[i]) {
            let i = choose|i: int|
                0 <= i < places.len() && (#[trigger] places[i]).1.members.contains(oid) && path
                    == path_of(catalog, places[i]);
            if i < front.len() {
                assert(front[i] == places[i]);
                let k = choose|k: int| 0 <= k < before.len() && before[k] == path;
                assert(all[k] == path);
            } else if before.contains(path) {
                let k = choose|k: int| 0 <= k < before.len() && before[k] == path;
                assert(all[k] == path);
            } else {
                assert(all[before.len() as int] == path);
            }
        }
    }
}

/// Whether the parameter with the OID is one of those that are meant.
pub open spec fn is_meant(
    parameters: Seq<ParameterView>,
    selector: SelectorView,
    oid: OidView,
) -> bool {
    exists|parameter: ParameterView| #[trigger]
        parameters.contains(parameter) && means(selector, parameter) && parameter.oid == oid
}

/// A name that means several parameters is refused with all of them, each with its OID, its name
/// and the menus that show it.
pub proof fn law_candidates_are_all_that_are_meant(
    catalog: CatalogView,
    selector: SelectorView,
    parameter: ParameterView,
)
    requires
        distinct(catalog.parameters),
    ensures
        resolved_parameter(catalog, selector) matches Err(
            ResolveErrorView::AmbiguousDisplayName { candidates, .. },
        ) ==> (catalog.parameters.contains(parameter) && means(selector, parameter) ==> exists|
            i: int,
        |
            0 <= i < candidates.len() && (#[trigger] candidates[i]).parameter.oid == parameter.oid
                && candidates[i].parameter.display_name == parameter.display_name
                && candidates[i].menus == paths_of(catalog, parameter)),
        resolved_parameter(catalog, selector) matches Err(
            ResolveErrorView::AmbiguousDisplayName { candidates, .. },
        ) ==> forall|i: int|
            0 <= i < candidates.len() ==> is_meant(
                catalog.parameters,
                selector,
                (#[trigger] candidates[i]).parameter.oid,
            ),
{
    let matches = selected_by(catalog.parameters, selector);
    law_name_means_all_it_may(catalog.parameters, selector, parameter);
    if let Err(ResolveErrorView::AmbiguousDisplayName { candidates, .. }) = resolved_parameter(
        catalog,
        selector,
    ) {
        assert(candidates.len() == matches.len());
        if catalog.parameters.contains(parameter) && means(selector, parameter) {
            assert(matches.contains(parameter));
            let i = choose|i: int| 0 <= i < matches.len() && matches[i] == parameter;
            assert(candidates[i].parameter.oid == parameter.oid);
        }
        assert forall|i: int| 0 <= i < candidates.len() implies is_meant(
            catalog.parameters,
            selector,
            (#[trigger] candidates[i]).parameter.oid,
        ) by {
            law_name_means_all_it_may(catalog.parameters, selector, matches[i]);
            assert(matches.contains(matches[i]));
            assert(catalog.parameters.contains(matches[i]));
        }
    }
}

/// A name that several menus have is refused with all of them, each with its numbers and its names
/// and those of its group.
pub proof fn law_menus_that_may_be_meant(
    catalog: CatalogView,
    group_name: Option<Seq<char>>,
    menu_name: Seq<char>,
    k: int,
)
    requires
        0 <= k < all_menus(catalog.menus).len(),
        has_names(all_menus(catalog.menus)[k], group_name, menu_name),
    ensures
        resolved_menu(catalog, group_name, menu_name) matches Err(
            ResolveErrorView::AmbiguousMenu { menu, candidates },
        ) ==> menu == menu_name && exists|i: int|
            0 <= i < candidates.len() && (#[trigger] candidates[i]).menu == all_menus(
                catalog.menus,
            )[k].1.name && candidates[i].group == all_menus(catalog.menus)[k].0.name
                && candidates[i].menu_index == all_menus(catalog.menus)[k].1.index
                && candidates[i].group_index == all_menus(catalog.menus)[k].0.index,
        !(resolved_menu(catalog, group_name, menu_name) matches Err(
            ResolveErrorView::MenuNotFound { .. },
        )),
{
    let places = all_menus(catalog.menus);
    let keep = menu_named(group_name, menu_name);
    let matches = places.filter(keep);
    lemma_kept(places, keep, k);
    let i = choose|i: int| 0 <= i < matches.len() && matches[i] == places[k];
    if let Err(ResolveErrorView::AmbiguousMenu { candidates, .. }) = resolved_menu(
        catalog,
        group_name,
        menu_name,
    ) {
        assert(candidates[i].menu == places[k].1.name);
    }
}

/// Groups whose names differ in nothing but the case of letters cannot be told apart by name: a
/// menu of either is not looked for.
pub proof fn law_groups_that_may_be_meant(
    catalog: CatalogView,
    group_name: Seq<char>,
    menu_name: Seq<char>,
    i: int,
    j: int,
)
    requires
        catalog.incomplete_menu_groups.len() == 0,
        0 <= i < j < catalog.menus.len(),
        fold(catalog.menus[i].name) == fold(group_name),
        fold(catalog.menus[j].name) == fold(group_name),
    ensures
        resolved_menu(catalog, Some(group_name), menu_name) matches Err(
            ResolveErrorView::AmbiguousGroup { group, candidates },
        ) && group == group_name && candidates.len() >= 2,
{
    lemma_kept_twice(catalog.menus, group_named(group_name), i, j);
}

/// In a catalog whose menus are all known, the one menu with a name in the one group with a name is
/// found.
pub proof fn law_only_menu_in_a_group_is_found(
    catalog: CatalogView,
    group_name: Seq<char>,
    menu_name: Seq<char>,
    index: int,
)
    requires
        catalog.incomplete_menu_groups.len() == 0,
        forall|i: int, j: int|
            0 <= i < j < catalog.menus.len() ==> !(fold((#[trigger] catalog.menus[i]).name) == fold(
                group_name,
            ) && fold((#[trigger] catalog.menus[j]).name) == fold(group_name)),
        0 <= index < all_menus(catalog.menus).len(),
        has_names(all_menus(catalog.menus)[index], Some(group_name), menu_name),
        forall|i: int|
            0 <= i < all_menus(catalog.menus).len() && i != index ==> !has_names(
                #[trigger] all_menus(catalog.menus)[i],
                Some(group_name),
                menu_name,
            ),
    ensures
        resolved_menu(catalog, Some(group_name), menu_name) == Ok::<_, ResolveErrorView>(
            all_menus(catalog.menus)[index],
        ),
{
    let places = all_menus(catalog.menus);
    let keep = menu_named(Some(group_name), menu_name);
    lemma_kept(places, keep, index);
    assert forall|i: int, j: int| 0 <= i < j < places.len() implies !(keep(#[trigger] places[i])
        && keep(#[trigger] places[j])) by {
        if i != index {
            assert(!has_names(places[i], Some(group_name), menu_name));
        } else {
            assert(!has_names(places[j], Some(group_name), menu_name));
        }
    }
    lemma_kept_once(places, keep);
    assert forall|i: int, j: int| 0 <= i < j < catalog.menus.len() implies !(group_named(
        group_name,
    )(#[trigger] catalog.menus[i]) && group_named(group_name)(#[trigger] catalog.menus[j])) by {
    }
    lemma_kept_once(catalog.menus, group_named(group_name));
}

/// A menu that no menu of the catalog has the name of is said not to be there, where all menus are
/// known and nothing failed.
pub proof fn law_missing_menu_is_denied(
    catalog: CatalogView,
    menu_name: Seq<char>,
)
    requires
        catalog.incomplete_menu_groups.len() == 0,
        catalog.menu_discovery_error is None,
        forall|i: int|
            0 <= i < all_menus(catalog.menus).len() ==> !has_names(
                #[trigger] all_menus(catalog.menus)[i],
                None,
                menu_name,
            ),
    ensures
        resolved_menu(catalog, None, menu_name) == Err::<(MenuGroupView, MenuView), _>(
            ResolveErrorView::MenuNotFound { group: None, menu: menu_name },
        ),
{
    let places = all_menus(catalog.menus);
    let keep = menu_named(None, menu_name);
    assert forall|i: int| 0 <= i < places.len() implies !keep(#[trigger] places[i]) by {
        assert(!has_names(places[i], None, menu_name));
    }
    lemma_kept_none(places, keep);
}

/// A menu is not looked for in a group that is not fully known, nor is it said that it is not there.
pub proof fn law_menu_of_an_incomplete_group_is_not_denied(
    catalog: CatalogView,
    group_name: Seq<char>,
    menu_name: Seq<char>,
    k: int,
)
    requires
        0 <= k < catalog.menus.len(),
        fold(catalog.menus[k].name) == fold(group_name),
        catalog.incomplete_menu_groups.contains(catalog.menus[k].index),
    ensures
        resolved_menu(catalog, Some(group_name), menu_name) matches Err(
            ResolveErrorView::MenusUnavailable(_),
        ),
{
    let groups = catalog.menus.filter(group_named(group_name));
    lemma_kept(catalog.menus, group_named(group_name), k);
    let i = choose|i: int| 0 <= i < groups.len() && groups[i] == catalog.menus[k];
    if groups.len() == 1 {
        assert(groups[0] == catalog.menus[k]);
    }
}

/// A group that is fully known is searched though another one is not.
pub proof fn law_complete_group_is_searched(
    catalog: CatalogView,
    group_name: Seq<char>,
    menu_name: Seq<char>,
    k: int,
)
    requires
        0 <= k < catalog.menus.len(),
        fold(catalog.menus[k].name) == fold(group_name),
        forall|i: int|
            0 <= i < catalog.menus.len() && i != k ==> fold((#[trigger] catalog.menus[i]).name)
                != fold(group_name),
        !catalog.incomplete_menu_groups.contains(catalog.menus[k].index),
        forall|i: int|
            0 <= i < catalog.incomplete_menu_groups.len() ==> has_index(
                catalog.menus,
                #[trigger] catalog.incomplete_menu_groups[i],
            ),
        catalog.menu_discovery_error is None || exists|i: int|
            0 <= i < all_menus(catalog.menus).len() && has_names(
                #[trigger] all_menus(catalog.menus)[i],
                Some(group_name),
                menu_name,
            ),
    ensures
        !(resolved_menu(catalog, Some(group_name), menu_name) matches Err(
            ResolveErrorView::MenusUnavailable(_),
        )),
{
    let keep = group_named(group_name);
    let groups = catalog.menus.filter(keep);
    lemma_kept(catalog.menus, keep, k);
    assert forall|i: int, j: int| 0 <= i < j < catalog.menus.len() implies !(keep(
        #[trigger] catalog.menus[i],
    ) && keep(#[trigger] catalog.menus[j])) by {
        if i != k {
            assert(fold(catalog.menus[i].name) != fold(group_name));
        } else {
            assert(fold(catalog.menus[j].name) != fold(group_name));
        }
    }
    lemma_kept_once(catalog.menus, keep);
    assert(groups[0] == catalog.menus[k]);
    if catalog.menu_discovery_error is Some {
        let places = all_menus(catalog.menus);
        let i = choose|i: int|
            0 <= i < places.len() && has_names(#[trigger] places[i], Some(group_name), menu_name);
        lemma_kept(places, menu_named(Some(group_name), menu_name), i);
    }
}

/// Menus are searched in the order of their groups, and the paths of a parameter come in that
/// order.
pub proof fn law_menus_come_in_order(
    catalog: CatalogView,
    groups: Seq<MenuGroupView>,
    group: MenuGroupView,
    places: Seq<(MenuGroupView, MenuView)>,
    place: (MenuGroupView, MenuView),
    oid: OidView,
)
    ensures
        all_menus(groups.push(group)) == all_menus(groups) + Seq::new(
            group.menus.len(),
            |i: int| (group, group.menus[i]),
        ),
        all_menus(seq![]).len() == 0,
        paths_among(catalog, places, oid).is_prefix_of(
            paths_among(catalog, places.push(place), oid),
        ),
{
    assert(groups.push(group).drop_last() =~= groups);
    assert(group.menus.map_values(|menu: MenuView| (group, menu)) =~= Seq::new(
        group.menus.len(),
        |i: int| (group, group.menus[i]),
    ));
    assert(places.push(place).drop_last() =~= places);
}

/// A parameter that is not found is told by the words that were asked for, in a menu with the name of
/// the menu. Several that may be meant in a menu are each told with that menu.
pub proof fn law_words_about_a_missing_parameter(
    catalog: CatalogView,
    place: (MenuGroupView, MenuView),
    selector: SelectorView,
)
    ensures
        ({
            let words = match selector {
                SelectorView::Oid(oid) => seq!['o', 'i', 'd', ':'] + oid_text(oid),
                SelectorView::DisplayName(name) => name,
                SelectorView::Auto(text) => text,
            };
            &&& resolved_parameter(catalog, selector) matches Err(ResolveErrorView::NotFound(told))
                ==> told == words
            &&& resolved_member(catalog, place, selector) matches Err(
                ResolveErrorView::ParameterNotFoundInMenu { menu, selector: told },
            ) ==> menu == place.1.name && told == words
            &&& resolved_member(catalog, place, selector) matches Err(
                ResolveErrorView::AmbiguousDisplayName { name, candidates },
            ) ==> name == words && forall|i: int|
                0 <= i < candidates.len() ==> (#[trigger] candidates[i]).menus.len() == 1
                    && is_path_of(catalog, candidates[i].menus[0], place)
            &&& resolved_parameter(catalog, selector) matches Err(
                ResolveErrorView::AmbiguousDisplayName { name, .. },
            ) ==> name == words
        }),
{
    reveal_strlit("oid:");
    assert("oid:"@ =~= seq!['o', 'i', 'd', ':']);
    law_path_is_that_of_the_menu(catalog, place);
}

/// A parameter is looked for in the menu that is given, where that is found, and elsewhere in the
/// whole catalog.
pub proof fn law_menu_narrows_the_search(
    catalog: CatalogView,
    group: Option<Seq<char>>,
    menu: Seq<char>,
    selector: SelectorView,
)
    ensures
        commanded(catalog, group, None, selector) == resolved_parameter(catalog, selector),
        match resolved_menu(catalog, group, menu) {
            Ok(place) => commanded(catalog, group, Some(menu), selector) == resolved_member(
                catalog,
                place,
                selector,
            ),
            Err(error) => commanded(catalog, group, Some(menu), selector) == Err::<
                ParameterView,
                _,
            >(error),
        },
{
}

/// Parameters are refused as a catalog with an OID that two of them share.
pub proof fn law_shared_oid_is_told(parameters: Seq<ParameterView>)
    requires
        new_catalog(parameters) is Err,
    ensures
        new_catalog(parameters)->Err_0 matches CatalogErrorView::DuplicateOid(oid) && exists|
            i: int,
            j: int,
        |
            0 <= i < j < parameters.len() && (#[trigger] parameters[i]).oid == oid && (
            #[trigger] parameters[j]).oid == oid,
    decreases parameters.len(),
{
    let front = parameters.drop_last();
    let oid = first_duplicate(parameters)->0;
    if first_duplicate(front) is Some {
        law_shared_oid_is_told(front);
        let (i, j) = choose|i: int, j: int|
            0 <= i < j < front.len() && (#[trigger] front[i]).oid == oid && (
            #[trigger] front[j]).oid == oid;
        assert(parameters[i].oid == oid && parameters[j].oid == oid);
    } else {
        let i = choose|i: int| 0 <= i < front.len() && (#[trigger] front[i]).oid == oid;
        assert(parameters[i].oid == oid && parameters[parameters.len() - 1].oid == oid);
    }
}

/// A new catalog has all the parameters, in order.
pub proof fn law_new_catalog_has_its_parameters(parameters: Seq<ParameterView>)
    ensures
        new_catalog(parameters) matches Ok(catalog) ==> catalog.parameters == parameters
            && catalog.menus.len() == 0 && catalog.menu_discovery_error is Some,
{
}

} // verus!
