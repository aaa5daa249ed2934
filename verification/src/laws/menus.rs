//! Laws of the discovery of menus: every group and every menu that the device has is found, with
//! its name and its members, and every failure is noted.

use crate::catalog::MenuView;
use crate::client::error::{client_error_text, ClientErrorView};
use crate::client::fetch::Progress;
use crate::client::menus::{
    group_event, menu_reply, menus_event, new_group, new_menu, new_menus, FoundGroupView,
    FoundMenusView, GroupFetchView, GroupStageView, MenuFetchView, MenusFetchView,
};
use crate::model::OidView;
use crate::protocol::layout::{
    group_name_bytes, law_group_name_round_trip, law_menu_count_round_trip,
    law_menu_oids_round_trip, law_menu_round_trip, menu_bytes, menu_oids_bytes,
};
use crate::protocol::items::countable;
use crate::protocol::response::{
    MenuCount, MenuDescriptionView, MenuGroupNameView, MenuNumericOidsView,
};
use crate::text::{decimal, joined};
use vstd::prelude::*;

verus! {

/// A menu that is asked for stays the one that is asked for, and the menu that comes has its
/// number.
pub proof fn law_menu_that_comes_was_asked_for(menu: MenuFetchView, content: Seq<u8>)
    ensures
        menu_reply(menu, content) matches Ok(Progress::More(after)) ==> after.group == menu.group
            && after.menu == menu.menu,
        menu_reply(menu, content) matches Ok(Progress::Done(found)) ==> found.index == menu.menu,
{
}

/// A menu that is answered is kept behind those that are known, and nothing that is known is lost:
/// the next menu is asked for, or the group is complete.
pub proof fn law_answered_menu_is_kept(
    group: u8,
    name: Seq<char>,
    count: u8,
    menus: Seq<MenuView>,
    errors: Seq<Seq<char>>,
    current: MenuFetchView,
    content: Seq<u8>,
    found: MenuView,
)
    requires
        menu_reply(current, content) == Ok::<_, ClientErrorView>(
            Progress::<MenuFetchView, MenuView>::Done(found),
        ),
    ensures
        ({
            let stage = GroupStageView::Menus { name, count, menus, errors, current };
            match group_event(GroupFetchView { group, stage }, Ok(content)) {
                Ok(Progress::More(after)) => {
                    &&& current.menu + 1 < count
                    &&& after.group == group
                    &&& after.stage matches GroupStageView::Menus {
                        name: same_name,
                        count: same_count,
                        menus: more,
                        errors: same_errors,
                        current: next,
                    } && same_name == name && same_count == count && same_errors == errors && more
                        == menus + seq![found] && next.group == group && next.menu == current.menu
                        + 1 && next.stage is Name
                },
                Ok(Progress::Done(complete)) => {
                    &&& current.menu + 1 >= count
                    &&& complete.group.index == group
                    &&& complete.group.name == name
                    &&& complete.group.menus == menus + seq![found]
                    &&& complete.errors == errors
                },
                Err(_) => false,
            }
        }),
{
    assert(menus.push(found) =~= menus + seq![found]);
}

/// A menu that fails is noted behind the other failures, with its number and the reason, and the
/// menus that are known stay.
pub proof fn law_failed_menu_is_noted(
    group: u8,
    name: Seq<char>,
    count: u8,
    menus: Seq<MenuView>,
    errors: Seq<Seq<char>>,
    current: MenuFetchView,
    outcome: Result<Seq<u8>, ClientErrorView>,
    error: ClientErrorView,
)
    requires
        match outcome {
            Ok(content) => menu_reply(current, content) == Err::<
                Progress<MenuFetchView, MenuView>,
                _,
            >(error),
            Err(failure) => failure == error,
        },
    ensures
        ({
            let stage = GroupStageView::Menus { name, count, menus, errors, current };
            let note = "menu group "@ + decimal(group as nat) + ", menu "@ + decimal(
                current.menu as nat,
            ) + ": "@ + client_error_text(error);
            match group_event(GroupFetchView { group, stage }, outcome) {
                Ok(Progress::More(after)) => {
                    &&& current.menu + 1 < count
                    &&& after.group == group
                    &&& after.stage matches GroupStageView::Menus {
                        name: same_name,
                        count: same_count,
                        menus: same_menus,
                        errors: more,
                        current: next,
                    } && same_name == name && same_count == count && same_menus == menus && more
                        == errors + seq![note] && next.group == group && next.menu == current.menu
                        + 1 && next.stage is Name
                },
                Ok(Progress::Done(complete)) => {
                    &&& current.menu + 1 >= count
                    &&& complete.group.index == group
                    &&& complete.group.name == name
                    &&& complete.group.menus == menus
                    &&& complete.errors == errors + seq![note]
                },
                Err(_) => false,
            }
        }),
{
    let note = "menu group "@ + decimal(group as nat) + ", menu "@ + decimal(current.menu as nat)
        + ": "@ + client_error_text(error);
    assert(errors.push(note) =~= errors + seq![note]);
}

/// What comes before a menu is known changes nothing but what is known of that menu.
pub proof fn law_menu_in_progress_changes_nothing_else(
    group: u8,
    name: Seq<char>,
    count: u8,
    menus: Seq<MenuView>,
    errors: Seq<Seq<char>>,
    current: MenuFetchView,
    content: Seq<u8>,
    next: MenuFetchView,
)
    requires
        menu_reply(current, content) == Ok::<_, ClientErrorView>(
            Progress::<MenuFetchView, MenuView>::More(next),
        ),
    ensures
        group_event(
            GroupFetchView {
                group,
                stage: GroupStageView::Menus { name, count, menus, errors, current },
            },
            Ok(content),
        ) == Ok::<_, ClientErrorView>(
            Progress::<GroupFetchView, FoundGroupView>::More(
                GroupFetchView {
                    group,
                    stage: GroupStageView::Menus { name, count, menus, errors, current: next },
                },
            ),
        ),
{
}

/// Whether each menu before the one that is asked for is known or noted as failed, and the known
/// ones have their numbers.
pub open spec fn accounted_for(group: GroupFetchView) -> bool {
    group.stage matches GroupStageView::Menus { count, menus, errors, current, .. } ==> {
        &&& current.group == group.group
        &&& current.menu < count
        &&& menus.len() + errors.len() == current.menu
        &&& errors.len() == 0 ==> forall|i: int|
            0 <= i < menus.len() ==> (#[trigger] menus[i]).index == i
    }
}

/// Every menu of a group is found or noted as failed. A group without failures has as many menus as
/// the device said, with their numbers from 0 on.
pub proof fn law_every_menu_is_accounted_for(
    group: GroupFetchView,
    outcome: Result<Seq<u8>, ClientErrorView>,
)
    requires
        accounted_for(group),
    ensures
        accounted_for(new_group(group.group)),
        group_event(group, outcome) matches Ok(Progress::More(after)) ==> accounted_for(after)
            && after.group == group.group && (group.stage matches GroupStageView::Menus {
            count,
            ..
        } ==> (after.stage matches GroupStageView::Menus { count: same, .. } && same == count)),
        group_event(group, outcome) matches Ok(Progress::Done(found)) ==> {
            &&& found.group.index == group.group
            &&& group.stage matches GroupStageView::Menus { count, .. } ==> {
                &&& found.group.menus.len() + found.errors.len() == count
                &&& found.errors.len() == 0 ==> forall|i: int|
                    0 <= i < count ==> (#[trigger] found.group.menus[i]).index == i
            }
        },
{
    if let GroupStageView::Menus { name, count, menus, errors, current } = group.stage {
        if let Ok(content) = outcome {
            law_menu_that_comes_was_asked_for(current, content);
            if let Ok(Progress::Done(found)) = menu_reply(current, content) {
                let more = menus.push(found);
                if errors.len() == 0 {
                    assert forall|i: int| 0 <= i < more.len() implies (#[trigger] more[i]).index
                        == i by {
                        if i < menus.len() {
                            assert(more[i] == menus[i]);
                        }
                    }
                }
            }
        }
    }
}

/// A menu of a device: how the device describes it, and the OIDs of its members.
pub struct DeviceMenu {
    pub description: MenuDescriptionView,
    pub members: Seq<u16>,
}

/// Whether a menu of a device is the one with the numbers, can be put into responses, and has
/// numeric members.
pub open spec fn is_answerable(menu: DeviceMenu, group: u8, index: int) -> bool {
    let description = menu.description;
    &&& description.group == group
    &&& description.menu == index
    &&& countable(description.name)
    &&& description.layout_url matches Some(url) ==> countable(url)
    &&& description.stable_id is None ==> description.layout_url is None
        && description.string_oid_count is None
    &&& description.string_oid_count matches Some(count) ==> count == 0
    &&& menu.members.len() <= 128
}

/// Whether a menu that was found is the one that the device has: with its number, name, layout
/// and members, and with its identifier, or one made of the numbers of the group and the menu.
pub open spec fn is_found_menu(found: MenuView, menu: DeviceMenu) -> bool {
    &&& found.index == menu.description.menu
    &&& found.name == menu.description.name
    &&& found.layout_url == menu.description.layout_url
    &&& menu.description.stable_id is Some ==> Some(found.stable_id) == menu.description.stable_id
    &&& menu.description.stable_id is None ==> found.stable_id == 256 * menu.description.group
        + menu.description.menu
    &&& found.members.len() == menu.members.len()
    &&& forall|i: int|
        0 <= i < menu.members.len() ==> #[trigger] found.members[i] == OidView::Numeric(
            menu.members[i],
        )
}

/// The two answers about a menu.
pub open spec fn answers_about(menu: DeviceMenu) -> Seq<Seq<u8>> {
    seq![
        menu_bytes(menu.description),
        menu_oids_bytes(
            MenuNumericOidsView {
                group: menu.description.group,
                menu: menu.description.menu,
                oids: menu.members,
            },
        ),
    ]
}

/// A menu that the device answers for is found as the device has it.
pub proof fn law_menu_of_a_device_is_found(menu: DeviceMenu)
    requires
        is_answerable(menu, menu.description.group, menu.description.menu as int),
    ensures
        menu_reply(
            new_menu(menu.description.group, menu.description.menu),
            answers_about(menu)[0],
        ) matches Ok(Progress::More(next)) && (menu_reply(
            next,
            answers_about(menu)[1],
        ) matches Ok(Progress::Done(found)) && is_found_menu(found, menu)),
{
    let oids = MenuNumericOidsView {
        group: menu.description.group,
        menu: menu.description.menu,
        oids: menu.members,
    };
    law_menu_round_trip(menu.description);
    law_menu_oids_round_trip(oids);
}

/// What is known of a group once answers have come one after the other.
pub open spec fn group_after(group: GroupFetchView, answers: Seq<Seq<u8>>) -> Result<
    Progress<GroupFetchView, FoundGroupView>,
    ClientErrorView,
>
    decreases answers.len(),
{
    if answers.len() == 0 {
        Ok(Progress::More(group))
    } else {
        match group_event(group, Ok(answers[0])) {
            Ok(Progress::More(after)) => group_after(after, answers.skip(1)),
            other => other,
        }
    }
}

/// The answers about menus, one menu behind the other.
pub open spec fn answers_about_all(menus: Seq<DeviceMenu>) -> Seq<Seq<u8>>
    decreases menus.len(),
{
    if menus.len() == 0 {
        seq![]
    } else {
        answers_about(menus[0]) + answers_about_all(menus.skip(1))
    }
}

proof fn lemma_menus_follow(
    group: u8,
    name: Seq<char>,
    all: Seq<DeviceMenu>,
    known: Seq<MenuView>,
)
    requires
        known.len() < all.len() <= 255,
        forall|i: int| 0 <= i < all.len() ==> is_answerable(#[trigger] all[i], group, i),
        forall|i: int| 0 <= i < known.len() ==> is_found_menu(#[trigger] known[i], all[i]),
    ensures
        group_after(
            GroupFetchView {
                group,
                stage: GroupStageView::Menus {
                    name,
                    count: all.len() as u8,
                    menus: known,
                    errors: seq![],
                    current: new_menu(group, known.len() as u8),
                },
            },
            answers_about_all(all.skip(known.len() as int)),
        ) matches Ok(Progress::Done(found)) && found.group.index == group && found.group.name
            == name && found.errors.len() == 0 && found.group.menus.len() == all.len() && (
        forall|i: int|
            0 <= i < all.len() ==> is_found_menu(#[trigger] found.group.menus[i], all[i])),
    decreases all.len() - known.len(),
{
    let k = known.len() as int;
    let menu = all[k];
    let rest = all.skip(k);
    let answers = answers_about_all(rest);
    let count = all.len() as u8;
    assert(is_answerable(menu, group, k));
    assert(rest[0] == menu);
    law_menu_of_a_device_is_found(menu);
    let next = menu_reply(new_menu(group, k as u8), answers_about(menu)[0])->Ok_0->More_0;
    let found = menu_reply(next, answers_about(menu)[1])->Ok_0->Done_0;
    law_menu_that_comes_was_asked_for(new_menu(group, k as u8), answers_about(menu)[0]);
    let more = known.push(found);
    let later = answers_about_all(rest.skip(1));
    assert(answers[0] == answers_about(menu)[0]);
    assert(answers.skip(1)[0] == answers_about(menu)[1]);
    assert(answers.skip(1).skip(1) =~= later);
    assert(rest.skip(1) =~= all.skip(k + 1));
    let middle = GroupFetchView {
        group,
        stage: GroupStageView::Menus { name, count, menus: known, errors: seq![], current: next },
    };
    assert forall|i: int| 0 <= i < more.len() implies is_found_menu(#[trigger] more[i], all[i]) by {
        if i < k {
            assert(more[i] == known[i]);
        }
    }
    let start = GroupFetchView {
        group,
        stage: GroupStageView::Menus {
            name,
            count,
            menus: known,
            errors: seq![],
            current: new_menu(group, k as u8),
        },
    };
    assert(group_event(start, Ok(answers[0])) == Ok::<_, ClientErrorView>(
        Progress::<GroupFetchView, FoundGroupView>::More(middle),
    ));
    assert(group_after(start, answers) == group_after(middle, answers.skip(1)));
    if more.len() < all.len() {
        lemma_menus_follow(group, name, all, more);
        let after = GroupFetchView {
            group,
            stage: GroupStageView::Menus {
                name,
                count,
                menus: more,
                errors: seq![],
                current: new_menu(group, (k + 1) as u8),
            },
        };
        assert(group_event(middle, Ok(answers.skip(1)[0])) == Ok::<_, ClientErrorView>(
            Progress::<GroupFetchView, FoundGroupView>::More(after),
        ));
        assert(group_after(middle, answers.skip(1)) == group_after(after, later));
    } else {
        assert(group_after(middle, answers.skip(1)) == group_event(
            middle,
            Ok(answers.skip(1)[0]),
        ));
    }
}

/// A group that the device answers for is found as the device has it: under its name, with all of
/// its menus in order, and without a failure.
pub proof fn law_group_of_a_device_is_found(
    name: MenuGroupNameView,
    unused: u8,
    menus: Seq<DeviceMenu>,
)
    requires
        countable(name.name),
        menus.len() <= 255,
        forall|i: int| 0 <= i < menus.len() ==> is_answerable(#[trigger] menus[i], name.group, i),
    ensures
        group_after(
            new_group(name.group),
            seq![group_name_bytes(name, unused), seq![0u8, name.group, menus.len() as u8]]
                + answers_about_all(menus),
        ) matches Ok(Progress::Done(found)) && found.group.index == name.group && found.group.name
            == name.name && found.errors.len() == 0 && found.group.menus.len() == menus.len() && (
        forall|i: int|
            0 <= i < menus.len() ==> is_found_menu(#[trigger] found.group.menus[i], menus[i])),
{
    let group = name.group;
    let count = menus.len() as u8;
    let later = answers_about_all(menus);
    let answers = seq![group_name_bytes(name, unused), seq![0u8, group, count]] + later;
    law_group_name_round_trip(name, unused);
    law_menu_count_round_trip(MenuCount { group, count });
    assert(answers.skip(1).skip(1) =~= later);
    let named = GroupFetchView { group, stage: GroupStageView::Count(name.name) };
    assert(group_event(new_group(group), Ok(answers[0])) == Ok::<_, ClientErrorView>(
        Progress::<GroupFetchView, FoundGroupView>::More(named),
    ));
    assert(group_after(new_group(group), answers) == group_after(named, answers.skip(1)));
    if menus.len() > 0 {
        let counted = GroupFetchView {
            group,
            stage: GroupStageView::Menus {
                name: name.name,
                count,
                menus: seq![],
                errors: seq![],
                current: new_menu(group, 0),
            },
        };
        assert(group_after(named, answers.skip(1)) == group_after(counted, later));
        lemma_menus_follow(group, name.name, menus, seq![]);
        assert(menus.skip(0) =~= menus);
    } else {
        assert(group_after(named, answers.skip(1)) == group_event(
            named,
            Ok(answers.skip(1)[0]),
        ));
    }
}

/// A group that is found is kept behind those that are known, with its failures behind theirs. It
/// is listed as not fully known exactly where it has failures. Behind the first group comes the
/// second.
pub proof fn law_found_group_is_kept(
    menus: MenusFetchView,
    outcome: Result<Seq<u8>, ClientErrorView>,
    found: FoundGroupView,
)
    requires
        group_event(menus.current, outcome) == Ok::<_, ClientErrorView>(
            Progress::<GroupFetchView, FoundGroupView>::Done(found),
        ),
    ensures
        ({
            let group = menus.current.group;
            let errors = menus.errors + found.errors;
            let incomplete = menus.incomplete + (if found.errors.len() > 0 {
                seq![group]
            } else {
                seq![]
            });
            match menus_event(menus, outcome) {
                Progress::More(after) => {
                    &&& group == 0
                    &&& after.groups == menus.groups + seq![found.group]
                    &&& after.errors == errors
                    &&& after.incomplete == incomplete
                    &&& after.current.group == 1
                    &&& after.current.stage is Name
                },
                Progress::Done(all) => {
                    &&& group != 0
                    &&& all.groups == menus.groups + seq![found.group]
                    &&& all.incomplete == incomplete
                    &&& errors.len() == 0 ==> all.error is None
                    &&& errors.len() > 0 ==> all.error == Some(joined(errors, seq![';', ' ']))
                },
            }
        }),
{
    reveal_strlit("; ");
    assert("; "@ =~= seq![';', ' ']);
    let group = menus.current.group;
    assert(menus.groups.push(found.group) =~= menus.groups + seq![found.group]);
    assert(menus.incomplete.push(group) =~= menus.incomplete + seq![group]);
    assert(menus.incomplete + Seq::<u8>::empty() =~= menus.incomplete);
}

/// A group that fails is noted with its number and the reason, and listed as not fully known; the
/// groups that are known stay.
pub proof fn law_failed_group_is_noted(
    menus: MenusFetchView,
    outcome: Result<Seq<u8>, ClientErrorView>,
    error: ClientErrorView,
)
    requires
        group_event(menus.current, outcome) == Err::<Progress<GroupFetchView, FoundGroupView>, _>(
            error,
        ),
    ensures
        ({
            let group = menus.current.group;
            let errors = menus.errors + seq![
                "menu group "@ + decimal(group as nat) + ": "@ + client_error_text(error),
            ];
            match menus_event(menus, outcome) {
                Progress::More(after) => {
                    &&& group == 0
                    &&& after.groups == menus.groups
                    &&& after.errors == errors
                    &&& after.incomplete == menus.incomplete + seq![group]
                    &&& after.current.group == 1
                    &&& after.current.stage is Name
                },
                Progress::Done(all) => {
                    &&& group != 0
                    &&& all.groups == menus.groups
                    &&& all.incomplete == menus.incomplete + seq![group]
                    &&& all.error == Some(joined(errors, seq![';', ' ']))
                },
            }
        }),
{
    reveal_strlit("; ");
    assert("; "@ =~= seq![';', ' ']);
    let group = menus.current.group;
    let text = "menu group "@ + decimal(group as nat) + ": "@ + client_error_text(error);
    assert(menus.errors.push(text) =~= menus.errors + seq![text]);
    assert(menus.incomplete.push(group) =~= menus.incomplete + seq![group]);
}

/// What comes before a group is known changes nothing but what is known of that group. The first
/// group is asked for first.
pub proof fn law_group_in_progress_changes_nothing_else(
    menus: MenusFetchView,
    outcome: Result<Seq<u8>, ClientErrorView>,
    next: GroupFetchView,
)
    ensures
        group_event(menus.current, outcome) == Ok::<_, ClientErrorView>(
            Progress::<GroupFetchView, FoundGroupView>::More(next),
        ) ==> menus_event(menus, outcome) == Progress::<MenusFetchView, FoundMenusView>::More(
            MenusFetchView {
                groups: menus.groups,
                errors: menus.errors,
                incomplete: menus.incomplete,
                current: next,
            },
        ),
        new_menus().current.group == 0,
        new_menus().current.stage is Name,
        new_menus().groups.len() == 0,
        new_menus().errors.len() == 0,
        new_menus().incomplete.len() == 0,
{
}

} // verus!
