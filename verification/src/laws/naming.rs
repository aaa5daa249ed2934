//! Laws of OIDs, selectors and how they find parameters.

use crate::catalog::{
    all_menus, has_oid, meant_by, members_among, menu_named, named, new_catalog, resolved_member,
    resolved_menu, resolved_parameter, with_named, with_oid, CatalogView, MenuGroupView, MenuView,
    ResolveErrorView,
};
use crate::model::{
    is_oid_char, is_string_oid, oid_text, parsed_oid, parsed_selector, selector_text, OidView,
    ParameterView, SelectorView,
};
use crate::text::{digit, digit_value, digits_value, fold, hex, starts_with, trimmed, white_space};
use vstd::prelude::*;

verus! {

proof fn lemma_hex_value(n: nat, width: nat)
    ensures
        hex(n, width, true).len() == width,
        width <= 4 ==> digits_value(hex(n, width, true), 16) == Some(
            n % (if width == 0 {
                1nat
            } else if width == 1 {
                16nat
            } else if width == 2 {
                256nat
            } else if width == 3 {
                4096nat
            } else {
                65536nat
            }),
        ),
        forall|i: int| 0 <= i < width ==> !white_space(#[trigger] hex(n, width, true)[i]) && hex(
            n,
            width,
            true,
        )[i] != '+',
    decreases width,
{
    if width > 0 {
        let front = hex(n / 16, (width - 1) as nat, true);
        lemma_hex_value(n / 16, (width - 1) as nat);
        let text = hex(n, width, true);
        assert(text.drop_last() =~= front);
        let d = n % 16;
        assert(text.last() == digit(d, true));
        assert(digit_value(digit(d, true), 16) == Some(d));
        assert forall|i: int| 0 <= i < width implies !white_space(#[trigger] text[i]) && text[i]
            != '+' by {
            if i < width - 1 {
                assert(text[i] == front[i]);
            }
        }
    }
}

/// A text that neither starts nor ends with white space is trimmed.
pub proof fn lemma_trimmed(text: Seq<char>)
    requires
        text.len() > 0,
        !white_space(text[0]),
        !white_space(text.last()),
    ensures
        trimmed(text) == text,
{
}

/// A number of 16 bits is read from its four hexadecimal digits.
pub proof fn law_numeric_oid_round_trip(n: u16)
    ensures
        parsed_oid(oid_text(OidView::Numeric(n))) == Ok::<OidView, Seq<char>>(OidView::Numeric(n)),
{
    let digits = hex(n as nat, 4, true);
    let text = "0x"@ + digits;
    reveal_strlit("0x");
    lemma_hex_value(n as nat, 4);
    assert(text[0] == '0');
    assert(text.last() == digits[3]);
    lemma_trimmed(text);
    assert(text.take(2) =~= "0x"@);
    assert(text.skip(2) =~= digits);
    assert(digits[0] != '+');
}

/// A string OID is read as it is.
pub proof fn law_string_oid_round_trip(text: Seq<char>)
    requires
        is_string_oid(text),
    ensures
        parsed_oid(text) == Ok::<OidView, Seq<char>>(OidView::String(text)),
{
    reveal_strlit("0x");
    reveal_strlit("0X");
    assert(is_oid_char(text[0]) && is_oid_char(text[text.len() - 1]));
    lemma_trimmed(text);
    if starts_with(text, "0x"@) {
        assert(text.take(2)[0] == '0');
    }
    if starts_with(text, "0X"@) {
        assert(text.take(2)[0] == '0');
    }
    lemma_no_digits(text);
}

proof fn lemma_no_digits(text: Seq<char>)
    requires
        text.len() > 0,
        digit_value(text[0], 10) is None,
    ensures
        digits_value(text, 10) is None,
    decreases text.len(),
{
    if text.len() > 1 {
        lemma_no_digits(text.drop_last());
    }
}

/// What an OID is written as is read as that OID, for every OID that can be read.
pub proof fn law_oid_round_trip(text: Seq<char>)
    requires
        parsed_oid(text) is Ok,
    ensures
        parsed_oid(oid_text(parsed_oid(text)->Ok_0)) == parsed_oid(text),
{
    match parsed_oid(text)->Ok_0 {
        OidView::Numeric(n) => law_numeric_oid_round_trip(n),
        OidView::String(name) => law_string_oid_round_trip(name),
    }
}

/// What a selector is written as is read as that selector, for every selector that can be read.
pub proof fn law_selector_round_trip(text: Seq<char>)
    requires
        parsed_selector(text) is Ok,
    ensures
        parsed_selector(selector_text(parsed_selector(text)->Ok_0)) == parsed_selector(text),
{
    reveal_strlit("symbol:");
    reveal_strlit("oid:");
    reveal_strlit("name:");
    let written = selector_text(parsed_selector(text)->Ok_0);
    match parsed_selector(text)->Ok_0 {
        SelectorView::Oid(oid) => {
            assert(written[0] == 'o');
            if starts_with(written, "symbol:"@) {
                assert(written.take(7)[0] == 's');
            }
            assert(written.take(4) =~= "oid:"@);
            assert(written.skip(4) =~= oid_text(oid));
            law_oid_round_trip(text.skip(4));
        },
        SelectorView::DisplayName(name) => {
            assert(written[0] == 'n');
            if starts_with(written, "symbol:"@) {
                assert(written.take(7)[0] == 's');
            }
            if starts_with(written, "oid:"@) {
                assert(written.take(4)[0] == 'o');
            }
            assert(written.take(5) =~= "name:"@);
            assert(written.skip(5) =~= name);
        },
        SelectorView::Auto(_) => {},
    }
}

/// A catalog can be made of parameters exactly where no two share an OID.
pub proof fn law_catalog_needs_distinct_oids(parameters: Seq<ParameterView>)
    ensures
        new_catalog(parameters) is Ok <==> forall|i: int, j: int|
            0 <= i < j < parameters.len() ==> parameters[i].oid != parameters[j].oid,
    decreases parameters.len(),
{
    if parameters.len() > 0 {
        let front = parameters.drop_last();
        law_catalog_needs_distinct_oids(front);
        if new_catalog(parameters) is Ok {
            assert forall|i: int, j: int| 0 <= i < j < parameters.len() implies parameters[i].oid
                != parameters[j].oid by {
                if j < front.len() {
                    assert(front[i].oid != front[j].oid);
                } else if parameters[i].oid == parameters[j].oid {
                    assert(front[i].oid == parameters.last().oid);
                }
            }
        }
        if forall|i: int, j: int|
            0 <= i < j < parameters.len() ==> parameters[i].oid != parameters[j].oid {
            assert forall|i: int, j: int| 0 <= i < j < front.len() implies front[i].oid
                != front[j].oid by {
                assert(parameters[i].oid != parameters[j].oid);
            }
            if has_oid(front, parameters.last().oid) {
                let i = choose|i: int|
                    0 <= i < front.len() && front[i].oid == parameters.last().oid;
                assert(parameters[i].oid != parameters[parameters.len() - 1].oid);
            }
        }
    }
}

/// The parameter that is found by an OID has it, and one is found where one has it.
pub proof fn lemma_with_oid(parameters: Seq<ParameterView>, oid: OidView)
    ensures
        match with_oid(parameters, oid) {
            Some(parameter) => parameter.oid == oid && parameters.contains(parameter),
            None => !has_oid(parameters, oid),
        },
    decreases parameters.len(),
{
    if parameters.len() > 0 {
        let front = parameters.drop_last();
        lemma_with_oid(front, oid);
        match with_oid(front, oid) {
            Some(parameter) => {
                let i = choose|i: int| 0 <= i < front.len() && front[i] == parameter;
                assert(parameters[i] == parameter);
            },
            None => {
                if parameters.last().oid == oid {
                    assert(parameters[parameters.len() - 1] == parameters.last());
                } else if has_oid(parameters, oid) {
                    let i = choose|i: int| 0 <= i < parameters.len() && parameters[i].oid == oid;
                    assert(front[i].oid == oid);
                }
            },
        }
    }
}

/// In a catalog of parameters with distinct OIDs each parameter is found by its own OID.
pub proof fn law_oid_finds_its_parameter(catalog: CatalogView, index: int)
    requires
        new_catalog(catalog.parameters) is Ok,
        0 <= index < catalog.parameters.len(),
    ensures
        resolved_parameter(catalog, SelectorView::Oid(catalog.parameters[index].oid)) == Ok::<
            ParameterView,
            ResolveErrorView,
        >(catalog.parameters[index]),
{
    let parameters = catalog.parameters;
    let oid = parameters[index].oid;
    law_catalog_needs_distinct_oids(parameters);
    lemma_with_oid(parameters, oid);
    assert(has_oid(parameters, oid));
    let found = with_oid(parameters, oid)->0;
    let i = choose|i: int| 0 <= i < parameters.len() && parameters[i] == found;
    if i < index {
        assert(parameters[i].oid != parameters[index].oid);
    } else if index < i {
        assert(parameters[index].oid != parameters[i].oid);
    }
}

proof fn lemma_filter_keeps(parameters: Seq<ParameterView>, name: Seq<char>)
    ensures
        forall|i: int|
            0 <= i < parameters.filter(named(name)).len() ==> parameters.contains(
                #[trigger] parameters.filter(named(name))[i],
            ) && fold(parameters.filter(named(name))[i].display_name) == fold(name),
    decreases parameters.len(),
{
    reveal(Seq::filter);
    if parameters.len() > 0 {
        let front = parameters.drop_last();
        lemma_filter_keeps(front, name);
        let all = parameters.filter(named(name));
        let before = front.filter(named(name));
        assert forall|i: int| 0 <= i < all.len() implies parameters.contains(#[trigger] all[i])
            && fold(all[i].display_name) == fold(name) by {
            if i < before.len() {
                assert(all[i] == before[i]);
                let k = choose|k: int| 0 <= k < front.len() && front[k] == before[i];
                assert(parameters[k] == all[i]);
            } else {
                assert(parameters[parameters.len() - 1] == all[i]);
            }
        }
    }
}

proof fn lemma_with_named_keeps(
    found: Seq<ParameterView>,
    parameters: Seq<ParameterView>,
    whole: Seq<ParameterView>,
    name: Seq<char>,
)
    requires
        forall|i: int| 0 <= i < found.len() ==> whole.contains(#[trigger] found[i]),
        forall|i: int| 0 <= i < parameters.len() ==> whole.contains(#[trigger] parameters[i]),
    ensures
        forall|i: int|
            0 <= i < with_named(found, parameters, name).len() ==> whole.contains(
                #[trigger] with_named(found, parameters, name)[i],
            ),
    decreases parameters.len(),
{
    if parameters.len() > 0 {
        let front = parameters.drop_last();
        assert forall|i: int| 0 <= i < front.len() implies whole.contains(#[trigger] front[i]) by {
            assert(front[i] == parameters[i]);
        }
        lemma_with_named_keeps(found, front, whole, name);
        assert(whole.contains(parameters[parameters.len() - 1]));
        let before = with_named(found, front, name);
        let all = with_named(found, parameters, name);
        assert forall|i: int| 0 <= i < all.len() implies whole.contains(#[trigger] all[i]) by {
            if i < before.len() {
                assert(all[i] == before[i]);
            }
        }
    }
}

proof fn lemma_meant_by_keeps(parameters: Seq<ParameterView>, text: Seq<char>)
    ensures
        forall|i: int|
            0 <= i < meant_by(parameters, text).len() ==> parameters.contains(
                #[trigger] meant_by(parameters, text)[i],
            ),
{
    let found = match parsed_oid(text) {
        Ok(oid) => match with_oid(parameters, oid) {
            Some(parameter) => seq![parameter],
            None => seq![],
        },
        Err(_) => seq![],
    };
    if let Ok(oid) = parsed_oid(text) {
        lemma_with_oid(parameters, oid);
    }
    assert forall|i: int| 0 <= i < parameters.len() implies parameters.contains(
        #[trigger] parameters[i],
    ) by {}
    lemma_with_named_keeps(found, parameters, parameters, text);
}

/// A parameter that is found is one of the catalog.
pub proof fn law_found_parameter_is_known(catalog: CatalogView, selector: SelectorView)
    requires
        resolved_parameter(catalog, selector) is Ok,
    ensures
        catalog.parameters.contains(resolved_parameter(catalog, selector)->Ok_0),
{
    match selector {
        SelectorView::Oid(oid) => lemma_with_oid(catalog.parameters, oid),
        SelectorView::DisplayName(name) => {
            lemma_filter_keeps(catalog.parameters, name);
            let matches = catalog.parameters.filter(named(name));
            assert(catalog.parameters.contains(matches[0]));
        },
        SelectorView::Auto(text) => {
            lemma_meant_by_keeps(catalog.parameters, text);
            let matches = meant_by(catalog.parameters, text);
            assert(catalog.parameters.contains(matches[0]));
        },
    }
}

/// The case of the letters of a display name does not matter.
pub proof fn law_display_name_ignores_case(catalog: CatalogView, left: Seq<char>, right: Seq<char>)
    requires
        fold(left) == fold(right),
        resolved_parameter(catalog, SelectorView::DisplayName(left)) is Ok,
    ensures
        resolved_parameter(catalog, SelectorView::DisplayName(right)) == resolved_parameter(
            catalog,
            SelectorView::DisplayName(left),
        ),
{
    lemma_same_filter(catalog.parameters, left, right);
}

proof fn lemma_same_filter(parameters: Seq<ParameterView>, left: Seq<char>, right: Seq<char>)
    requires
        fold(left) == fold(right),
    ensures
        parameters.filter(named(left)) == parameters.filter(named(right)),
    decreases parameters.len(),
{
    reveal(Seq::filter);
    if parameters.len() > 0 {
        lemma_same_filter(parameters.drop_last(), left, right);
    }
}

/// Two parameters with one display name cannot be told apart by it: an OID is needed.
pub proof fn law_shared_display_name_is_ambiguous(
    catalog: CatalogView,
    name: Seq<char>,
    i: int,
    j: int,
)
    requires
        0 <= i < j < catalog.parameters.len(),
        fold(catalog.parameters[i].display_name) == fold(name),
        fold(catalog.parameters[j].display_name) == fold(name),
    ensures
        resolved_parameter(catalog, SelectorView::DisplayName(name)) matches Err(
            ResolveErrorView::AmbiguousDisplayName { name: given, candidates },
        ) && given == name && candidates.len() == catalog.parameters.filter(named(name)).len(),
{
    lemma_filter_counts(catalog.parameters, name, i, j);
}

proof fn lemma_filter_counts(parameters: Seq<ParameterView>, name: Seq<char>, i: int, j: int)
    requires
        0 <= i < j < parameters.len(),
        named(name)(parameters[i]),
        named(name)(parameters[j]),
    ensures
        parameters.filter(named(name)).len() >= 2,
    decreases parameters.len(),
{
    reveal(Seq::filter);
    let front = parameters.drop_last();
    if j < front.len() {
        lemma_filter_counts(front, name, i, j);
    } else {
        lemma_filter_has(front, name, i);
    }
}

proof fn lemma_filter_has(parameters: Seq<ParameterView>, name: Seq<char>, i: int)
    requires
        0 <= i < parameters.len(),
        named(name)(parameters[i]),
    ensures
        parameters.filter(named(name)).len() >= 1,
    decreases parameters.len(),
{
    reveal(Seq::filter);
    let front = parameters.drop_last();
    if i < front.len() {
        lemma_filter_has(front, name, i);
    }
}

/// The parameters with some OIDs are known ones, have those OIDs, and come once.
pub proof fn lemma_members(parameters: Seq<ParameterView>, oids: Seq<OidView>)
    ensures
        forall|i: int|
            0 <= i < members_among(parameters, oids).len() ==> parameters.contains(
                #[trigger] members_among(parameters, oids)[i],
            ) && oids.contains(members_among(parameters, oids)[i].oid),
        forall|i: int, j: int|
            0 <= i < j < members_among(parameters, oids).len() ==> (#[trigger] members_among(
                parameters,
                oids,
            )[i]).oid != (#[trigger] members_among(parameters, oids)[j]).oid,
    decreases oids.len(),
{
    if oids.len() > 0 {
        let front = oids.drop_last();
        lemma_members(parameters, front);
        lemma_with_oid(parameters, oids.last());
        let before = members_among(parameters, front);
        let all = members_among(parameters, oids);
        assert forall|i: int| 0 <= i < all.len() implies parameters.contains(#[trigger] all[i])
            && oids.contains(all[i].oid) by {
            if i < before.len() {
                assert(all[i] == before[i]);
                let k = choose|k: int| 0 <= k < front.len() && front[k] == before[i].oid;
                assert(oids[k] == all[i].oid);
            } else {
                assert(oids[oids.len() - 1] == all[i].oid);
            }
        }
        assert forall|i: int, j: int| 0 <= i < j < all.len() implies (#[trigger] all[i]).oid != (
        #[trigger] all[j]).oid by {
            if j < before.len() {
                assert(before[i].oid != before[j].oid);
            } else {
                assert(all[i] == before[i]);
                assert(front.contains(before[i].oid));
            }
        }
    }
}

/// The parameters of a menu are parameters of the catalog that the menu names, each once.
pub proof fn law_menu_shows_its_members(catalog: CatalogView, menu: MenuView, i: int, j: int)
    requires
        0 <= i < j < members_among(catalog.parameters, menu.members).len(),
    ensures
        ({
            let members = members_among(catalog.parameters, menu.members);
            &&& catalog.parameters.contains(members[i])
            &&& menu.members.contains(members[i].oid)
            &&& members[i].oid != members[j].oid
        }),
{
    lemma_members(catalog.parameters, menu.members);
}

/// A parameter that is found in a menu is one of the catalog, and the menu names it.
pub proof fn law_found_member_is_in_menu(
    catalog: CatalogView,
    place: (MenuGroupView, MenuView),
    selector: SelectorView,
)
    requires
        resolved_member(catalog, place, selector) is Ok,
    ensures
        catalog.parameters.contains(resolved_member(catalog, place, selector)->Ok_0),
        place.1.members.contains(resolved_member(catalog, place, selector)->Ok_0.oid),
{
    let members = members_among(catalog.parameters, place.1.members);
    lemma_members(catalog.parameters, place.1.members);
    let found = resolved_member(catalog, place, selector)->Ok_0;
    match selector {
        SelectorView::Oid(oid) => lemma_with_oid(members, oid),
        SelectorView::DisplayName(name) => {
            lemma_filter_keeps(members, name);
            assert(members.contains(members.filter(named(name))[0]));
        },
        SelectorView::Auto(text) => {
            lemma_meant_by_keeps(members, text);
            assert(members.contains(meant_by(members, text)[0]));
        },
    }
    let k = choose|k: int| 0 <= k < members.len() && members[k] == found;
    assert(members[k] == found);
}

proof fn lemma_place_filter(
    places: Seq<(MenuGroupView, MenuView)>,
    group: Option<Seq<char>>,
    menu: Seq<char>,
)
    ensures
        forall|i: int|
            0 <= i < places.filter(menu_named(group, menu)).len() ==> places.contains(
                #[trigger] places.filter(menu_named(group, menu))[i],
            ) && menu_named(group, menu)(places.filter(menu_named(group, menu))[i]),
    decreases places.len(),
{
    reveal(Seq::filter);
    if places.len() > 0 {
        let front = places.drop_last();
        lemma_place_filter(front, group, menu);
        let all = places.filter(menu_named(group, menu));
        let before = front.filter(menu_named(group, menu));
        assert forall|i: int| 0 <= i < all.len() implies places.contains(#[trigger] all[i])
            && menu_named(group, menu)(all[i]) by {
            if i < before.len() {
                assert(all[i] == before[i]);
                let k = choose|k: int| 0 <= k < front.len() && front[k] == before[i];
                assert(places[k] == all[i]);
            } else {
                assert(places[places.len() - 1] == all[i]);
            }
        }
    }
}

/// A menu that is found is one of the catalog and has the names that were asked for.
pub proof fn law_found_menu_has_its_names(
    catalog: CatalogView,
    group_name: Option<Seq<char>>,
    menu_name: Seq<char>,
)
    requires
        resolved_menu(catalog, group_name, menu_name) is Ok,
    ensures
        ({
            let place = resolved_menu(catalog, group_name, menu_name)->Ok_0;
            &&& all_menus(catalog.menus).contains(place)
            &&& fold(place.1.name) == fold(menu_name)
            &&& group_name matches Some(name) ==> fold(place.0.name) == fold(name)
        }),
{
    lemma_place_filter(all_menus(catalog.menus), group_name, menu_name);
    let matches = all_menus(catalog.menus).filter(menu_named(group_name, menu_name));
    assert(menu_named(group_name, menu_name)(matches[0]));
}

/// Nothing is found in a menu before menus were discovered.
pub proof fn law_new_catalog_has_no_menus(
    parameters: Seq<ParameterView>,
    group_name: Option<Seq<char>>,
    menu_name: Seq<char>,
)
    requires
        new_catalog(parameters) is Ok,
    ensures
        resolved_menu(new_catalog(parameters)->Ok_0, group_name, menu_name) == Err::<
            (MenuGroupView, MenuView),
            _,
        >(ResolveErrorView::MenusUnavailable("menu discovery was not performed"@)),
{
    let catalog = new_catalog(parameters)->Ok_0;
    assert(catalog.incomplete_menu_groups[0] == 0u8);
}

} // verus!
