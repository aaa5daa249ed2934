//! Laws of names that several parameters or menus share.

use super::naming::{
    law_catalog_needs_distinct_oids, law_oid_finds_its_parameter, lemma_members, lemma_with_oid,
};
use super::output::{distinct, lemma_filter_distinct};
use crate::catalog::{
    all_menus, group_named, identity_of, meant_by, members_among, menu_named, named, new_catalog,
    path_of, paths_among, paths_of, resolved_in_menu, resolved_member, resolved_menu,
    resolved_parameter, with_named, with_oid, CandidateView, CatalogView, MenuGroupView,
    MenuPathView, MenuView, ResolveErrorView,
};
use crate::cli::error::name_text;
use crate::cli::guidance::{
    all_candidate_lines, any_unique, candidate_lines, candidates_text,
    law_advised_menu_is_the_candidates_own, lemma_unique, oid_line, path_line, same_words,
    unique_paths,
};
use crate::csv_output::path_texts;
use crate::model::{oid_text, parsed_oid, OidView, ParameterView, SelectorView};
use crate::text::{debug_text, fold, joined};
use vstd::prelude::*;

verus! {

/// An item that a filter keeps is among those it keeps.
pub(super) proof fn lemma_kept<T>(items: Seq<T>, keep: spec_fn(T) -> bool, i: int)
    requires
        0 <= i < items.len(),
        keep(items[i]),
    ensures
        items.filter(keep).contains(items[i]),
    decreases items.len(),
{
    reveal(Seq::filter);
    let front = items.drop_last();
    let before = front.filter(keep);
    let all = items.filter(keep);
    if i < front.len() {
        lemma_kept(front, keep, i);
        let k = choose|k: int| 0 <= k < before.len() && before[k] == front[i];
        assert(all[k] == items[i]);
    } else {
        assert(all.last() == items[i]);
        assert(all[all.len() - 1] == items[i]);
    }
}

/// A display name is never guessed: where one parameter is found by it, no other has it.
pub proof fn law_display_name_is_not_guessed(catalog: CatalogView, name: Seq<char>, i: int)
    requires
        resolved_parameter(catalog, SelectorView::DisplayName(name)) is Ok,
        0 <= i < catalog.parameters.len(),
        fold(catalog.parameters[i].display_name) == fold(name),
    ensures
        resolved_parameter(catalog, SelectorView::DisplayName(name)) == Ok::<_, ResolveErrorView>(
            catalog.parameters[i],
        ),
{
    lemma_kept(catalog.parameters, named(name), i);
}

proof fn lemma_with_named_complete(
    found: Seq<ParameterView>,
    parameters: Seq<ParameterView>,
    name: Seq<char>,
    i: int,
)
    requires
        0 <= i < parameters.len(),
        named(name)(parameters[i]),
    ensures
        exists|k: int|
            0 <= k < with_named(found, parameters, name).len() && (#[trigger] with_named(
                found,
                parameters,
                name,
            )[k]).oid == parameters[i].oid,
    decreases parameters.len(),
{
    let front = parameters.drop_last();
    let before = with_named(found, front, name);
    let all = with_named(found, parameters, name);
    if i < front.len() {
        lemma_with_named_complete(found, front, name, i);
        let k = choose|k: int| 0 <= k < before.len() && before[k].oid == front[i].oid;
        assert(all[k].oid == parameters[i].oid);
    } else if crate::catalog::has_oid(before, parameters[i].oid) {
        let k = choose|k: int| 0 <= k < before.len() && before[k].oid == parameters[i].oid;
        assert(all[k].oid == parameters[i].oid);
    } else {
        assert(all[before.len() as int].oid == parameters[i].oid);
    }
}

proof fn lemma_with_named_starts(
    found: Seq<ParameterView>,
    parameters: Seq<ParameterView>,
    name: Seq<char>,
)
    ensures
        with_named(found, parameters, name).len() >= found.len(),
        with_named(found, parameters, name).take(found.len() as int) == found,
    decreases parameters.len(),
{
    if parameters.len() > 0 {
        lemma_with_named_starts(found, parameters.drop_last(), name);
        let before = with_named(found, parameters.drop_last(), name);
        let all = with_named(found, parameters, name);
        assert(all.take(found.len() as int) =~= before.take(found.len() as int));
    } else {
        assert(found.take(found.len() as int) =~= found);
    }
}

/// A text that may be an OID or a display name is never guessed: where one parameter is found by
/// it, no parameter with that name or that OID is another one.
pub proof fn law_automatic_selector_is_not_guessed(catalog: CatalogView, text: Seq<char>, i: int)
    requires
        resolved_parameter(catalog, SelectorView::Auto(text)) is Ok,
        0 <= i < catalog.parameters.len(),
        fold(catalog.parameters[i].display_name) == fold(text) || parsed_oid(text) == Ok::<
            OidView,
            Seq<char>,
        >(catalog.parameters[i].oid),
    ensures
        resolved_parameter(catalog, SelectorView::Auto(text))->Ok_0.oid
            == catalog.parameters[i].oid,
{
    let parameters = catalog.parameters;
    let matches = meant_by(parameters, text);
    let found = match parsed_oid(text) {
        Ok(oid) => match with_oid(parameters, oid) {
            Some(parameter) => seq![parameter],
            None => seq![],
        },
        Err(_) => seq![],
    };
    if fold(parameters[i].display_name) == fold(text) {
        lemma_with_named_complete(found, parameters, text, i);
    } else {
        let oid = parameters[i].oid;
        lemma_with_oid(parameters, oid);
        assert(crate::catalog::has_oid(parameters, oid));
        lemma_with_named_starts(found, parameters, text);
        assert(matches.take(1)[0] == found[0]);
    }
}

/// A menu is never guessed: where one is found by its name, no other in its scope has it.
pub proof fn law_menu_is_not_guessed(
    catalog: CatalogView,
    group_name: Option<Seq<char>>,
    menu_name: Seq<char>,
    i: int,
)
    requires
        resolved_menu(catalog, group_name, menu_name) is Ok,
        0 <= i < all_menus(catalog.menus).len(),
        menu_named(group_name, menu_name)(all_menus(catalog.menus)[i]),
    ensures
        resolved_menu(catalog, group_name, menu_name) == Ok::<_, ResolveErrorView>(
            all_menus(catalog.menus)[i],
        ),
{
    lemma_kept(all_menus(catalog.menus), menu_named(group_name, menu_name), i);
}

proof fn lemma_same_menus(
    places: Seq<(MenuGroupView, MenuView)>,
    group: Option<Seq<char>>,
    other_group: Option<Seq<char>>,
    menu: Seq<char>,
    other_menu: Seq<char>,
)
    requires
        fold(menu) == fold(other_menu),
        group is Some == other_group is Some,
        group is Some ==> fold(group->0) == fold(other_group->0),
    ensures
        places.filter(menu_named(group, menu)) == places.filter(
            menu_named(other_group, other_menu),
        ),
    decreases places.len(),
{
    reveal(Seq::filter);
    if places.len() > 0 {
        lemma_same_menus(places.drop_last(), group, other_group, menu, other_menu);
    }
}

proof fn lemma_same_groups(groups: Seq<MenuGroupView>, left: Seq<char>, right: Seq<char>)
    requires
        fold(left) == fold(right),
    ensures
        groups.filter(group_named(left)) == groups.filter(group_named(right)),
    decreases groups.len(),
{
    reveal(Seq::filter);
    if groups.len() > 0 {
        lemma_same_groups(groups.drop_last(), left, right);
    }
}

/// The case of the letters of the names of menus and groups does not matter.
pub proof fn law_menu_name_ignores_case(
    catalog: CatalogView,
    group: Option<Seq<char>>,
    other_group: Option<Seq<char>>,
    menu: Seq<char>,
    other_menu: Seq<char>,
)
    requires
        fold(menu) == fold(other_menu),
        group is Some == other_group is Some,
        group is Some ==> fold(group->0) == fold(other_group->0),
        resolved_menu(catalog, group, menu) is Ok,
    ensures
        resolved_menu(catalog, other_group, other_menu) == resolved_menu(catalog, group, menu),
{
    lemma_same_menus(all_menus(catalog.menus), group, other_group, menu, other_menu);
    if let (Some(left), Some(right)) = (group, other_group) {
        lemma_same_groups(catalog.menus, left, right);
    }
}

/// A path comes from a menu that shows the parameter.
proof fn lemma_path_origin(
    catalog: CatalogView,
    places: Seq<(MenuGroupView, MenuView)>,
    oid: OidView,
    path: MenuPathView,
)
    requires
        paths_among(catalog, places, oid).contains(path),
    ensures
        exists|i: int|
            0 <= i < places.len() && path_of(catalog, #[trigger] places[i]) == path
                && places[i].1.members.contains(oid),
    decreases places.len(),
{
    let front = places.drop_last();
    let before = paths_among(catalog, front, oid);
    let all = paths_among(catalog, places, oid);
    let k = choose|k: int| 0 <= k < all.len() && all[k] == path;
    if k < before.len() {
        assert(before[k] == path);
        lemma_path_origin(catalog, front, oid, path);
        let i = choose|i: int|
            0 <= i < front.len() && path_of(catalog, #[trigger] front[i]) == path
                && front[i].1.members.contains(oid);
        assert(places[i] == front[i]);
    } else {
        assert(path_of(catalog, places[places.len() - 1]) == path);
    }
}

/// A menu that shows a parameter is on one of its paths.
proof fn lemma_path_listed(
    catalog: CatalogView,
    places: Seq<(MenuGroupView, MenuView)>,
    oid: OidView,
    i: int,
)
    requires
        0 <= i < places.len(),
        places[i].1.members.contains(oid),
    ensures
        paths_among(catalog, places, oid).contains(path_of(catalog, places[i])),
    decreases places.len(),
{
    let front = places.drop_last();
    let before = paths_among(catalog, front, oid);
    let all = paths_among(catalog, places, oid);
    let path = path_of(catalog, places[i]);
    if i < front.len() {
        lemma_path_listed(catalog, front, oid, i);
        let k = choose|k: int| 0 <= k < before.len() && before[k] == path;
        assert(all[k] == path);
    } else if before.contains(path) {
        let k = choose|k: int| 0 <= k < before.len() && before[k] == path;
        assert(all[k] == path);
    } else {
        assert(all[before.len() as int] == path);
    }
}

/// A parameter whose OID a menu names is shown by it.
proof fn lemma_member_listed(parameters: Seq<ParameterView>, oids: Seq<OidView>, oid: OidView)
    requires
        oids.contains(oid),
        with_oid(parameters, oid) is Some,
    ensures
        members_among(parameters, oids).contains(with_oid(parameters, oid)->0),
    decreases oids.len(),
{
    let front = oids.drop_last();
    let before = members_among(parameters, front);
    let all = members_among(parameters, oids);
    let found = with_oid(parameters, oid)->0;
    if front.contains(oid) {
        lemma_member_listed(parameters, front, oid);
        let k = choose|k: int| 0 <= k < before.len() && before[k] == found;
        assert(all[k] == found);
    } else {
        let i = choose|i: int| 0 <= i < oids.len() && oids[i] == oid;
        if i < front.len() {
            assert(front[i] == oid);
        }
        assert(all[before.len() as int] == found);
    }
}

/// The words that a path is asked for with: the group only where it is needed.
pub open spec fn group_of(path: MenuPathView) -> Option<Seq<char>> {
    if path.group_required {
        Some(path.group)
    } else {
        None
    }
}

/// The parameters that a name means.
pub open spec fn selected_by(parameters: Seq<ParameterView>, selector: SelectorView) -> Seq<
    ParameterView,
> {
    match selector {
        SelectorView::Oid(oid) => match with_oid(parameters, oid) {
            Some(parameter) => seq![parameter],
            None => seq![],
        },
        SelectorView::DisplayName(name) => parameters.filter(named(name)),
        SelectorView::Auto(text) => meant_by(parameters, text),
    }
}

/// Whether a name may mean a parameter: by its display name or, where it may be an OID, by that.
pub open spec fn may_mean(selector: SelectorView, parameter: ParameterView) -> bool {
    match selector {
        SelectorView::Oid(oid) => parameter.oid == oid,
        SelectorView::DisplayName(name) => named(name)(parameter),
        SelectorView::Auto(text) => named(text)(parameter) || parsed_oid(text) == Ok::<
            OidView,
            Seq<char>,
        >(parameter.oid),
    }
}

proof fn lemma_with_named_distinct(
    found: Seq<ParameterView>,
    parameters: Seq<ParameterView>,
    name: Seq<char>,
)
    requires
        distinct(found),
    ensures
        distinct(with_named(found, parameters, name)),
        forall|k: int|
            0 <= k < with_named(found, parameters, name).len() ==> {
                let item = #[trigger] with_named(found, parameters, name)[k];
                found.contains(item) || (parameters.contains(item) && named(name)(item))
            },
    decreases parameters.len(),
{
    let all = with_named(found, parameters, name);
    if parameters.len() > 0 {
        let front = parameters.drop_last();
        let before = with_named(found, front, name);
        lemma_with_named_distinct(found, front, name);
        assert forall|k: int| 0 <= k < all.len() implies found.contains(#[trigger] all[k]) || (
        parameters.contains(all[k]) && named(name)(all[k])) by {
            if k < before.len() {
                assert(all[k] == before[k]);
                if !found.contains(before[k]) {
                    let m = choose|m: int| 0 <= m < front.len() && front[m] == before[k];
                    assert(parameters[m] == all[k]);
                }
            } else {
                assert(parameters[parameters.len() - 1] == all[k]);
            }
        }
        assert forall|i: int, j: int| 0 <= i < j < all.len() implies all[i].oid != all[j].oid by {
            if j < before.len() {
                assert(before[i].oid != before[j].oid);
            } else {
                assert(all[i] == before[i]);
            }
        }
    } else {
        assert forall|k: int| 0 <= k < all.len() implies found.contains(#[trigger] all[k]) by {
            assert(found[k] == all[k]);
        }
    }
}

proof fn lemma_same_oid(parameters: Seq<ParameterView>, left: ParameterView, right: ParameterView)
    requires
        distinct(parameters),
        parameters.contains(left),
        parameters.contains(right),
        left.oid == right.oid,
    ensures
        left == right,
{
    let i = choose|i: int| 0 <= i < parameters.len() && parameters[i] == left;
    let j = choose|j: int| 0 <= j < parameters.len() && parameters[j] == right;
    if i < j {
        assert(parameters[i].oid != parameters[j].oid);
    } else if j < i {
        assert(parameters[j].oid != parameters[i].oid);
    }
}

/// The parameters that a name means are exactly those that it may mean, each once.
pub proof fn law_name_means_all_it_may(
    parameters: Seq<ParameterView>,
    selector: SelectorView,
    parameter: ParameterView,
)
    requires
        distinct(parameters),
    ensures
        distinct(selected_by(parameters, selector)),
        selected_by(parameters, selector).contains(parameter) <==> parameters.contains(parameter)
            && may_mean(selector, parameter),
{
    let matches = selected_by(parameters, selector);
    match selector {
        SelectorView::Oid(oid) => {
            lemma_with_oid(parameters, oid);
            if parameters.contains(parameter) && parameter.oid == oid {
                let i = choose|i: int| 0 <= i < parameters.len() && parameters[i] == parameter;
                assert(crate::catalog::has_oid(parameters, oid));
                lemma_same_oid(parameters, with_oid(parameters, oid)->0, parameter);
                assert(matches[0] == parameter);
            }
        },
        SelectorView::DisplayName(name) => {
            lemma_filter_distinct(parameters, named(name));
            lemma_filter_named(parameters, name);
            if parameters.contains(parameter) && named(name)(parameter) {
                let i = choose|i: int| 0 <= i < parameters.len() && parameters[i] == parameter;
                lemma_kept(parameters, named(name), i);
            }
        },
        SelectorView::Auto(text) => lemma_meant_by(parameters, text, parameter),
    }
}

proof fn lemma_meant_by(parameters: Seq<ParameterView>, text: Seq<char>, parameter: ParameterView)
    requires
        distinct(parameters),
    ensures
        distinct(meant_by(parameters, text)),
        meant_by(parameters, text).contains(parameter) <==> parameters.contains(parameter)
            && may_mean(SelectorView::Auto(text), parameter),
{
    let found = match parsed_oid(text) {
        Ok(oid) => match with_oid(parameters, oid) {
            Some(parameter) => seq![parameter],
            None => seq![],
        },
        Err(_) => seq![],
    };
    let matches = meant_by(parameters, text);
    if let Ok(oid) = parsed_oid(text) {
        lemma_with_oid(parameters, oid);
    }
    lemma_with_named_distinct(found, parameters, text);
    lemma_with_named_starts(found, parameters, text);
    if parameters.contains(parameter) && may_mean(SelectorView::Auto(text), parameter) {
        let i = choose|i: int| 0 <= i < parameters.len() && parameters[i] == parameter;
        if named(text)(parameter) {
            lemma_with_named_complete(found, parameters, text, i);
            let k = choose|k: int|
                0 <= k < matches.len() && (#[trigger] matches[k]).oid == parameters[i].oid;
            assert(found.contains(matches[k]) || parameters.contains(matches[k]));
            lemma_same_oid(parameters, matches[k], parameter);
        } else {
            let oid = parameter.oid;
            assert(crate::catalog::has_oid(parameters, oid));
            lemma_same_oid(parameters, found[0], parameter);
            assert(matches.take(1)[0] == found[0]);
            assert(matches[0] == parameter);
        }
    }
}

/// An ambiguous name has the parameters that it means for candidates.
proof fn lemma_candidates(
    catalog: CatalogView,
    selector: SelectorView,
    name: Seq<char>,
    candidates: Seq<CandidateView>,
    i: int,
)
    requires
        resolved_parameter(catalog, selector) == Err::<ParameterView, _>(
            ResolveErrorView::AmbiguousDisplayName { name, candidates },
        ),
        0 <= i < candidates.len(),
    ensures
        ({
            let matches = selected_by(catalog.parameters, selector);
            &&& matches.len() == candidates.len()
            &&& candidates[i].parameter == identity_of(matches[i])
            &&& candidates[i].menus == paths_of(catalog, matches[i])
        }),
{
}

/// A path that is advised for a candidate comes from a menu that shows it.
proof fn lemma_advised_place(
    catalog: CatalogView,
    selector: SelectorView,
    name: Seq<char>,
    candidates: Seq<CandidateView>,
    i: int,
    path: MenuPathView,
) -> (q: int)
    requires
        resolved_parameter(catalog, selector) == Err::<ParameterView, _>(
            ResolveErrorView::AmbiguousDisplayName { name, candidates },
        ),
        0 <= i < candidates.len(),
        unique_paths(candidates, candidates[i].menus).contains(path),
    ensures
        0 <= q < all_menus(catalog.menus).len(),
        path_of(catalog, all_menus(catalog.menus)[q]) == path,
        all_menus(catalog.menus)[q].1.members.contains(
            selected_by(catalog.parameters, selector)[i].oid,
        ),
        menu_named(group_of(path), path.menu)(all_menus(catalog.menus)[q]),
{
    let places = all_menus(catalog.menus);
    lemma_candidates(catalog, selector, name, candidates, i);
    let target = selected_by(catalog.parameters, selector)[i];
    lemma_unique(candidates, candidates[i].menus);
    let own = unique_paths(candidates, candidates[i].menus);
    let u = choose|u: int| 0 <= u < own.len() && own[u] == path;
    assert(candidates[i].menus.contains(own[u]));
    lemma_path_origin(catalog, places, target.oid, path);
    choose|q: int|
        0 <= q < places.len() && path_of(catalog, #[trigger] places[q]) == path
            && places[q].1.members.contains(target.oid)
}

/// The menu that is advised for a parameter with a shared name tells it apart: where the menu
/// itself is found by its words, the name finds that parameter in it.
pub proof fn law_advised_menu_selects_the_candidate(
    catalog: CatalogView,
    selector: SelectorView,
    name: Seq<char>,
    candidates: Seq<CandidateView>,
    i: int,
    path: MenuPathView,
    place: (MenuGroupView, MenuView),
)
    requires
        new_catalog(catalog.parameters) is Ok,
        resolved_parameter(catalog, selector) == Err::<ParameterView, _>(
            ResolveErrorView::AmbiguousDisplayName { name, candidates },
        ),
        0 <= i < candidates.len(),
        unique_paths(candidates, candidates[i].menus).contains(path),
        resolved_menu(catalog, group_of(path), path.menu) == Ok::<_, ResolveErrorView>(place),
    ensures
        resolved_member(catalog, place, selector) matches Ok(parameter) && identity_of(parameter)
            == candidates[i].parameter,
{
    let parameters = catalog.parameters;
    let places = all_menus(catalog.menus);
    let matches = selected_by(parameters, selector);
    lemma_candidates(catalog, selector, name, candidates, i);
    let target = matches[i];
    assert(matches.contains(target));
    law_catalog_needs_distinct_oids(parameters);
    law_name_means_all_it_may(parameters, selector, target);
    let q = lemma_advised_place(catalog, selector, name, candidates, i, path);
    lemma_kept(places, menu_named(group_of(path), path.menu), q);
    assert(places[q] == place);
    let members = members_among(parameters, place.1.members);
    let t = choose|t: int| 0 <= t < parameters.len() && parameters[t] == target;
    law_oid_finds_its_parameter(catalog, t);
    lemma_member_listed(parameters, place.1.members, target.oid);
    lemma_members(parameters, place.1.members);
    law_name_means_all_it_may(members, selector, target);
    let kept = selected_by(members, selector);
    let a = choose|a: int| 0 <= a < kept.len() && kept[a] == target;
    if kept.len() > 1 {
        let b = if a == 0 {
            1int
        } else {
            0int
        };
        let other = kept[b];
        assert(kept.contains(other));
        assert(other.oid != target.oid) by {
            if a < b {
                assert(kept[a].oid != kept[b].oid);
            } else {
                assert(kept[b].oid != kept[a].oid);
            }
        }
        law_name_means_all_it_may(members, selector, other);
        let o = choose|o: int| 0 <= o < members.len() && members[o] == other;
        assert(parameters.contains(members[o]) && place.1.members.contains(members[o].oid));
        law_name_means_all_it_may(parameters, selector, other);
        let j = choose|j: int| 0 <= j < matches.len() && matches[j] == other;
        assert(j != i);
        lemma_candidates(catalog, selector, name, candidates, j);
        lemma_path_listed(catalog, places, other.oid, q);
        let listed = candidates[j].menus;
        let l = choose|l: int| 0 <= l < listed.len() && listed[l] == path;
        assert(same_words(listed[l], path));
        law_advised_menu_is_the_candidates_own(candidates, i, j, path);
    }
}

/// Whether the names of groups, and the names of menus inside each group, differ in more than the
/// case of their letters.
pub open spec fn names_distinct(groups: Seq<MenuGroupView>) -> bool {
    &&& forall|i: int, j: int|
        0 <= i < j < groups.len() ==> fold((#[trigger] groups[i]).name) != fold(
            (#[trigger] groups[j]).name,
        )
    &&& forall|g: int| 0 <= g < groups.len() ==> menus_distinct((#[trigger] groups[g]).menus)
}

/// Whether the names of menus differ in more than the case of their letters.
pub open spec fn menus_distinct(menus: Seq<MenuView>) -> bool {
    forall|i: int, j: int|
        0 <= i < j < menus.len() ==> fold((#[trigger] menus[i]).name) != fold(
            (#[trigger] menus[j]).name,
        )
}

/// Whether two places have the same names but for the case of their letters.
pub open spec fn same_names(
    left: (MenuGroupView, MenuView),
    right: (MenuGroupView, MenuView),
) -> bool {
    fold(left.0.name) == fold(right.0.name) && fold(left.1.name) == fold(right.1.name)
}

proof fn lemma_places_distinct(groups: Seq<MenuGroupView>)
    requires
        names_distinct(groups),
    ensures
        forall|i: int, j: int|
            0 <= i < j < all_menus(groups).len() ==> !same_names(
                #[trigger] all_menus(groups)[i],
                #[trigger] all_menus(groups)[j],
            ),
        forall|i: int|
            0 <= i < all_menus(groups).len() ==> groups.contains(
                (#[trigger] all_menus(groups)[i]).0,
            ),
    decreases groups.len(),
{
    if groups.len() > 0 {
        let front = groups.drop_last();
        let last = groups.last();
        let end = groups.len() - 1;
        assert(groups[end] == last);
        assert(names_distinct(front)) by {
            assert forall|i: int, j: int| 0 <= i < j < front.len() implies fold(
                (#[trigger] front[i]).name,
            ) != fold((#[trigger] front[j]).name) by {
                assert(fold(groups[i].name) != fold(groups[j].name));
            }
            assert forall|g: int| 0 <= g < front.len() implies menus_distinct(
                (#[trigger] front[g]).menus,
            ) by {
                assert(front[g] == groups[g]);
            }
        }
        lemma_places_distinct(front);
        let before = all_menus(front);
        let all = all_menus(groups);
        let own = last.menus.map_values(|menu: MenuView| (last, menu));
        assert(all == before + own);
        assert forall|i: int| 0 <= i < all.len() implies groups.contains((#[trigger] all[i]).0) by {
            if i < before.len() {
                assert(all[i] == before[i]);
                let k = choose|k: int| 0 <= k < front.len() && front[k] == before[i].0;
                assert(groups[k] == all[i].0);
            } else {
                assert(all[i] == own[i - before.len()]);
            }
        }
        assert forall|i: int, j: int| 0 <= i < j < all.len() implies !same_names(
            #[trigger] all[i],
            #[trigger] all[j],
        ) by {
            if j < before.len() {
                assert(!same_names(before[i], before[j]));
            } else if i < before.len() {
                assert(all[i] == before[i]);
                assert(all[j] == own[j - before.len()]);
                assert(front.contains(before[i].0));
                let k = choose|k: int| 0 <= k < front.len() && front[k] == before[i].0;
                assert(fold(groups[k].name) != fold(groups[end].name));
            } else {
                let a = i - before.len();
                let b = j - before.len();
                assert(all[i] == own[a] && all[j] == own[b]);
                assert(fold(last.menus[a].name) != fold(last.menus[b].name));
            }
        }
    }
}

/// A filter that keeps no two items keeps at most one.
pub(super) proof fn lemma_kept_once<T>(items: Seq<T>, keep: spec_fn(T) -> bool)
    requires
        forall|i: int, j: int|
            0 <= i < j < items.len() ==> !(keep(#[trigger] items[i]) && keep(#[trigger] items[j])),
    ensures
        items.filter(keep).len() <= 1,
    decreases items.len(),
{
    reveal(Seq::filter);
    if items.len() > 0 {
        let front = items.drop_last();
        assert forall|i: int, j: int| 0 <= i < j < front.len() implies !(keep(#[trigger] front[i])
            && keep(#[trigger] front[j])) by {
            assert(front[i] == items[i] && front[j] == items[j]);
        }
        lemma_kept_once(front, keep);
        if keep(items.last()) {
            assert forall|i: int| 0 <= i < front.len() implies !keep(#[trigger] front[i]) by {
                assert(front[i] == items[i] && items[items.len() - 1] == items.last());
            }
            lemma_kept_none(front, keep);
        }
    }
}

pub(super) proof fn lemma_kept_none<T>(items: Seq<T>, keep: spec_fn(T) -> bool)
    requires
        forall|i: int| 0 <= i < items.len() ==> !keep(#[trigger] items[i]),
    ensures
        items.filter(keep).len() == 0,
    decreases items.len(),
{
    reveal(Seq::filter);
    if items.len() > 0 {
        let front = items.drop_last();
        assert forall|i: int| 0 <= i < front.len() implies !keep(#[trigger] front[i]) by {
            assert(front[i] == items[i]);
        }
        lemma_kept_none(front, keep);
        assert(!keep(items[items.len() - 1]));
    }
}

/// The menu that is advised for a parameter with a shared name is found by its words, where all
/// menus are known and no two names differ only in the case of their letters.
pub proof fn law_advised_menu_is_found(
    catalog: CatalogView,
    selector: SelectorView,
    name: Seq<char>,
    candidates: Seq<CandidateView>,
    i: int,
    path: MenuPathView,
)
    requires
        resolved_parameter(catalog, selector) == Err::<ParameterView, _>(
            ResolveErrorView::AmbiguousDisplayName { name, candidates },
        ),
        catalog.incomplete_menu_groups.len() == 0,
        names_distinct(catalog.menus),
        0 <= i < candidates.len(),
        unique_paths(candidates, candidates[i].menus).contains(path),
    ensures
        resolved_menu(catalog, group_of(path), path.menu) is Ok,
{
    let places = all_menus(catalog.menus);
    let keep = menu_named(group_of(path), path.menu);
    let q = lemma_advised_place(catalog, selector, name, candidates, i, path);
    lemma_kept(places, keep, q);
    if path.group_required {
        lemma_places_distinct(catalog.menus);
        assert forall|a: int, b: int| 0 <= a < b < places.len() implies !(keep(#[trigger] places[a])
            && keep(#[trigger] places[b])) by {
            assert(!same_names(places[a], places[b]));
        }
        lemma_kept_once(places, keep);
        let groups = catalog.menus;
        let in_group = group_named(path.group);
        assert forall|a: int, b: int| 0 <= a < b < groups.len() implies !(in_group(
            #[trigger] groups[a],
        ) && in_group(#[trigger] groups[b])) by {
            assert(fold(groups[a].name) != fold(groups[b].name));
        }
        lemma_kept_once(groups, in_group);
    }
}

/// Every menu that is advised for a parameter with a shared name is usable: where all menus are
/// known and no two names differ only in the case of their letters, the name finds that parameter
/// in that menu.
pub proof fn law_advice_is_usable(
    catalog: CatalogView,
    selector: SelectorView,
    name: Seq<char>,
    candidates: Seq<CandidateView>,
    i: int,
    path: MenuPathView,
)
    requires
        new_catalog(catalog.parameters) is Ok,
        resolved_parameter(catalog, selector) == Err::<ParameterView, _>(
            ResolveErrorView::AmbiguousDisplayName { name, candidates },
        ),
        catalog.incomplete_menu_groups.len() == 0,
        names_distinct(catalog.menus),
        0 <= i < candidates.len(),
        unique_paths(candidates, candidates[i].menus).contains(path),
    ensures
        resolved_in_menu(catalog, group_of(path), path.menu, selector) matches Ok(parameter)
            && identity_of(parameter) == candidates[i].parameter,
{
    law_advised_menu_is_found(catalog, selector, name, candidates, i, path);
    let place = resolved_menu(catalog, group_of(path), path.menu)->Ok_0;
    law_advised_menu_selects_the_candidate(catalog, selector, name, candidates, i, path, place);
}

/// Every line of advice is about one of the candidates: it offers a menu that is advised for it,
/// or its OID where none is.
pub proof fn law_advice_is_about_a_candidate(candidates: Seq<CandidateView>, count: nat, line: int)
    requires
        count <= candidates.len(),
        0 <= line < all_candidate_lines(candidates, count).len(),
    ensures
        exists|i: int|
            0 <= i < candidates.len() && candidate_lines(
                candidates,
                #[trigger] candidates[i],
            ).contains(all_candidate_lines(candidates, count)[line]),
    decreases count,
{
    if count > 0 {
        let before = all_candidate_lines(candidates, (count - 1) as nat);
        let own = candidate_lines(candidates, candidates[count - 1]);
        let all = all_candidate_lines(candidates, count);
        if line < before.len() {
            assert(all[line] == before[line]);
            law_advice_is_about_a_candidate(candidates, (count - 1) as nat, line);
        } else {
            assert(all[line] == own[line - before.len()]);
        }
    }
}

/// Whether a part occurs in a text.
pub open spec fn occurs(part: Seq<char>, text: Seq<char>) -> bool {
    exists|at: int|
        0 <= at <= text.len() - part.len() && #[trigger] text.subrange(at, at + part.len()) == part
}

/// Whether a part occurs in one of the lines.
pub open spec fn occurs_in_line(part: Seq<char>, lines: Seq<Seq<char>>) -> bool {
    exists|k: int| 0 <= k < lines.len() && occurs(part, #[trigger] lines[k])
}

proof fn lemma_occurs_between(before: Seq<char>, part: Seq<char>, after: Seq<char>)
    ensures
        occurs(part, before + part + after),
{
    let text = before + part + after;
    let at = before.len() as int;
    assert(text.subrange(at, at + part.len()) =~= part);
}

proof fn lemma_occurs_around(part: Seq<char>, before: Seq<char>, text: Seq<char>, after: Seq<char>)
    requires
        occurs(part, text),
    ensures
        occurs(part, before + text + after),
{
    let at = choose|at: int|
        0 <= at <= text.len() - part.len() && #[trigger] text.subrange(at, at + part.len()) == part;
    let whole = before + text + after;
    let place = before.len() + at;
    assert(whole.subrange(place, place + part.len()) =~= text.subrange(at, at + part.len()));
}

proof fn lemma_occurs_joined(part: Seq<char>, lines: Seq<Seq<char>>, separator: Seq<char>)
    requires
        occurs_in_line(part, lines),
    ensures
        occurs(part, joined(lines, separator)),
    decreases lines.len(),
{
    let k = choose|k: int| 0 <= k < lines.len() && occurs(part, #[trigger] lines[k]);
    if lines.len() > 1 {
        let front = lines.drop_last();
        let start = joined(front, separator);
        if k < front.len() {
            assert(occurs(part, front[k]));
            lemma_occurs_joined(part, front, separator);
            lemma_occurs_around(part, seq![], start, separator + lines.last());
            assert(Seq::<char>::empty() + start + (separator + lines.last()) =~= joined(
                lines,
                separator,
            ));
        } else {
            lemma_occurs_around(part, start + separator, lines.last(), seq![]);
            assert(start + separator + lines.last() + Seq::<char>::empty() =~= joined(
                lines,
                separator,
            ));
        }
    }
}

proof fn lemma_occurs_in_candidate_lines(candidates: Seq<CandidateView>, candidate: CandidateView)
    ensures
        occurs_in_line(
            oid_text(candidate.parameter.oid),
            candidate_lines(candidates, candidate),
        ),
{
    let part = oid_text(candidate.parameter.oid);
    let paths = unique_paths(candidates, candidate.menus);
    let lines = candidate_lines(candidates, candidate);
    if paths.len() == 0 {
        let after = "  ("@ + name_text(candidate.parameter.display_name) + ")"@;
        lemma_occurs_between("  oid:"@, part, after);
        assert("  oid:"@ + part + after =~= lines[0]);
    } else {
        let path = paths[0];
        let before = "  --menu "@ + debug_text(path.menu) + (if path.group_required {
            " --group "@ + debug_text(path.group)
        } else {
            ""@
        }) + "  (oid:"@;
        lemma_occurs_between(before, part, ")"@);
        assert(lines[0] == path_line(candidate, path));
        assert(before + part + ")"@ =~= lines[0]);
    }
    assert(occurs(part, lines[0]));
}

proof fn lemma_occurs_in_all_lines(candidates: Seq<CandidateView>, count: nat, i: int)
    requires
        0 <= i < count <= candidates.len(),
    ensures
        occurs_in_line(
            oid_text(candidates[i].parameter.oid),
            all_candidate_lines(candidates, count),
        ),
    decreases count,
{
    let part = oid_text(candidates[i].parameter.oid);
    let before = all_candidate_lines(candidates, (count - 1) as nat);
    let own = candidate_lines(candidates, candidates[count - 1]);
    let all = all_candidate_lines(candidates, count);
    if i < count - 1 {
        lemma_occurs_in_all_lines(candidates, (count - 1) as nat, i);
        let k = choose|k: int| 0 <= k < before.len() && occurs(part, #[trigger] before[k]);
        assert(all[k] == before[k]);
    } else {
        lemma_occurs_in_candidate_lines(candidates, candidates[i]);
        let k = choose|k: int| 0 <= k < own.len() && occurs(part, #[trigger] own[k]);
        assert(all[before.len() + k] == own[k]);
    }
}

/// The OID of every candidate stands in the advice.
pub proof fn law_advice_names_every_oid(candidates: Seq<CandidateView>, i: int)
    requires
        0 <= i < candidates.len(),
    ensures
        occurs(oid_text(candidates[i].parameter.oid), candidates_text(candidates)),
{
    let part = oid_text(candidates[i].parameter.oid);
    if any_unique(candidates) {
        let first = "Disambiguate with a unique menu qualifier or OID:"@;
        let last = "Or select directly with oid:<OID>."@;
        let own = all_candidate_lines(candidates, candidates.len());
        let lines = seq![first] + own + seq![last];
        lemma_occurs_in_all_lines(candidates, candidates.len(), i);
        let k = choose|k: int| 0 <= k < own.len() && occurs(part, #[trigger] own[k]);
        assert(lines[k + 1] == own[k]);
        lemma_occurs_joined(part, lines, "\n"@);
    } else {
        let first = "No unique menu qualifier identifies these parameters; select one by OID:"@;
        let own = candidates.map_values(|candidate: CandidateView| oid_line(candidate));
        let lines = seq![first] + own;
        let candidate = candidates[i];
        let menus = joined(path_texts(candidate.menus), ", "@);
        let after = "  "@ + name_text(candidate.parameter.display_name) + "  ["@ + (if menus.len()
            == 0 {
            "-"@
        } else {
            menus
        }) + "]"@;
        lemma_occurs_between("  oid:"@, part, after);
        assert("  oid:"@ + part + after =~= oid_line(candidate));
        assert(lines[i + 1] == oid_line(candidate));
        lemma_occurs_joined(part, lines, "\n"@);
    }
}

proof fn lemma_filter_named(parameters: Seq<ParameterView>, name: Seq<char>)
    ensures
        forall|k: int|
            0 <= k < parameters.filter(named(name)).len() ==> named(name)(
                #[trigger] parameters.filter(named(name))[k],
            ),
    decreases parameters.len(),
{
    reveal(Seq::filter);
    if parameters.len() > 0 {
        lemma_filter_named(parameters.drop_last(), name);
        let before = parameters.drop_last().filter(named(name));
        let all = parameters.filter(named(name));
        assert forall|k: int| 0 <= k < all.len() implies named(name)(#[trigger] all[k]) by {
            if k < before.len() {
                assert(all[k] == before[k]);
            }
        }
    }
}

} // verus!
