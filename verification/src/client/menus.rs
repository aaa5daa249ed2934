//! The menus of a device: two groups, the menus of each, and the parameters that each shows.

use super::error::{answered, client_error_text, unusable, ClientError, ClientErrorView};
use super::exchange::{Ask, AskView, Correlation, CorrelationView, ATTEMPTS};
use super::fetch::Progress;
use super::oids::{
    menu_string_ask, menu_string_reply, numeric_oids, MenuStringOids, MenuStringOidsView,
};
use crate::catalog::{Menu, MenuGroup, MenuGroupView, MenuView};
use crate::model::{OidView, ParameterOid};
use crate::protocol::frame::Frame;
use crate::protocol::request::{
    menu_group_request, menu_request, request_of, GET_MENUSET_NAME, GET_MENU_COUNT, GET_MENU_NAME,
    GET_MENU_OIDS,
};
use crate::protocol::response::{
    parsed_group_name, parsed_menu, parsed_menu_count, parsed_menu_oids, MenuCount,
    MenuDescription, MenuDescriptionView, MenuGroupName, MenuNumericOids,
};
use crate::text::{concat, decimal, join, joined, with_number};
use crate::views::{option_view, result_view, views};
use vstd::prelude::*;
use vstd::string::*;

verus! {

/// What came of a request: the content of its answer, or why there is none.
pub open spec fn outcome_view(outcome: Result<Frame, ClientError>) -> Result<
    Seq<u8>,
    ClientErrorView,
> {
    match outcome {
        Ok(frame) => Ok(frame@.content),
        Err(error) => Err(error@),
    }
}

/// How far a menu is known.
#[derive(Debug)]
enum MenuStage {
    Name,
    Numbers(MenuDescription),
    Strings(MenuDescription, MenuStringOids),
}

/// How far a menu is known: not at all, all but its members, which are numeric OIDs, or all but
/// some of its members, which are string OIDs.
pub enum MenuStageView {
    Name,
    Numbers(MenuDescriptionView),
    Strings(MenuDescriptionView, MenuStringOidsView),
}

/// A menu that is asked for.
#[derive(Debug)]
pub struct MenuFetch {
    group: u8,
    menu: u8,
    stage: MenuStage,
}

/// The value of a `MenuFetch`.
pub struct MenuFetchView {
    pub group: u8,
    pub menu: u8,
    pub stage: MenuStageView,
}

impl View for MenuFetch {
    type V = MenuFetchView;

    closed spec fn view(&self) -> MenuFetchView {
        MenuFetchView {
            group: self.group,
            menu: self.menu,
            stage: match self.stage {
                MenuStage::Name => MenuStageView::Name,
                MenuStage::Numbers(description) => MenuStageView::Numbers(description@),
                MenuStage::Strings(description, oids) => MenuStageView::Strings(
                    description@,
                    oids@,
                ),
            },
        }
    }
}

/// A menu of which nothing is known.
pub open spec fn new_menu(group: u8, menu: u8) -> MenuFetchView {
    MenuFetchView { group, menu, stage: MenuStageView::Name }
}

/// A request about a menu.
pub open spec fn about_menu(address: u8, message_type: u8, group: u8, menu: u8) -> AskView {
    AskView {
        request: request_of(address, message_type, seq![0u8, group, menu]),
        attempts: ATTEMPTS,
        correlation: CorrelationView::Menu(group, menu),
    }
}

/// The next request; none where all is known.
pub open spec fn menu_ask(menu: MenuFetchView, address: u8) -> Option<AskView> {
    match menu.stage {
        MenuStageView::Name => Some(about_menu(address, GET_MENU_NAME, menu.group, menu.menu)),
        MenuStageView::Numbers(_) => Some(
            about_menu(address, GET_MENU_OIDS, menu.group, menu.menu),
        ),
        MenuStageView::Strings(_, oids) => menu_string_ask(oids, address),
    }
}

/// The menu with its members. Where the device gives it no identifier, it has one made of the
/// numbers of the group and the menu.
pub open spec fn menu_of(
    group: u8,
    menu: u8,
    description: MenuDescriptionView,
    members: Seq<OidView>,
) -> MenuView {
    MenuView {
        index: menu,
        name: description.name,
        stable_id: match description.stable_id {
            Some(id) => id,
            None => (group * 0x100 + menu) as u16,
        },
        layout_url: description.layout_url,
        members,
    }
}

/// What a response brings.
pub open spec fn menu_reply(menu: MenuFetchView, content: Seq<u8>) -> Result<
    Progress<MenuFetchView, MenuView>,
    ClientErrorView,
> {
    match menu.stage {
        MenuStageView::Name => match answered(parsed_menu(content)) {
            Err(error) => Err(error),
            Ok(description) => if description.group != menu.group || description.menu != menu.menu {
                unusable("menu name response does not match its request"@)
            } else {
                let stage = match description.string_oid_count {
                    Some(count) if count > 0 => MenuStageView::Strings(
                        description,
                        MenuStringOidsView {
                            group: menu.group,
                            menu: menu.menu,
                            count: count as nat,
                            found: seq![],
                        },
                    ),
                    _ => MenuStageView::Numbers(description),
                };
                Ok(Progress::More(MenuFetchView { stage, ..menu }))
            },
        },
        MenuStageView::Numbers(description) => match answered(parsed_menu_oids(content)) {
            Err(error) => Err(error),
            Ok(oids) => if oids.group != menu.group || oids.menu != menu.menu {
                unusable("menu OID response does not match its request"@)
            } else {
                Ok(
                    Progress::Done(
                        menu_of(
                            menu.group,
                            menu.menu,
                            description,
                            oids.oids.map_values(|oid: u16| OidView::Numeric(oid)),
                        ),
                    ),
                )
            },
        },
        MenuStageView::Strings(description, oids) => match menu_string_reply(oids, content) {
            Err(error) => Err(error),
            Ok(oids) => if oids.found.len() >= oids.count {
                Ok(Progress::Done(menu_of(menu.group, menu.menu, description, oids.found)))
            } else {
                Ok(
                    Progress::More(
                        MenuFetchView { stage: MenuStageView::Strings(description, oids), ..menu },
                    ),
                )
            },
        },
    }
}

fn make_menu(group: u8, menu: u8, description: MenuDescription, members: Vec<ParameterOid>) -> (r:
    Menu)
    ensures
        r@ == menu_of(group, menu, description@, views(members@)),
{
    Menu {
        index: menu,
        name: description.name,
        stable_id: match description.stable_id {
            Some(id) => id,
            None => group as u16 * 0x100 + menu as u16,
        },
        layout_url: description.layout_url,
        members,
    }
}

impl MenuFetch {
    #[verifier::type_invariant]
    spec fn request_is_due(self) -> bool {
        match self.stage {
            MenuStage::Strings(_, oids) => oids@.found.len() < oids@.count,
            _ => true,
        }
    }

    pub fn new(group: u8, menu: u8) -> (r: Self)
        ensures
            r@ == new_menu(group, menu),
    {
        MenuFetch { group, menu, stage: MenuStage::Name }
    }

    fn index(&self) -> (r: u8)
        ensures
            r == self@.menu,
    {
        self.menu
    }

    /// The next request.
    pub fn ask(&self, address: u8) -> (r: Ask)
        ensures
            menu_ask(self@, address) == Some(r@),
    {
        proof {
            use_type_invariant(self);
        }
        let message_type: u8 = match &self.stage {
            MenuStage::Name => GET_MENU_NAME,
            MenuStage::Numbers(_) => GET_MENU_OIDS,
            MenuStage::Strings(_, oids) => {
                return oids.ask(address).unwrap();
            },
        };
        Ask {
            request: menu_request(address, message_type, self.group, self.menu),
            attempts: ATTEMPTS,
            correlation: Correlation::Menu(self.group, self.menu),
        }
    }

    /// Takes a response.
    pub fn reply(self, frame: &Frame) -> (r: Result<Progress<MenuFetch, Menu>, ClientError>)
        ensures
            result_view(r) == menu_reply(self@, frame@.content),
    {
        let group: u8 = self.group;
        let menu: u8 = self.menu;
        match self.stage {
            MenuStage::Name => {
                let description = match MenuDescription::parse(frame) {
                    Ok(description) => description,
                    Err(error) => return Err(ClientError::from_protocol(error)),
                };
                if description.group != group || description.menu != menu {
                    return Err(
                        ClientError::InvalidDiscovery(
                            "menu name response does not match its request",
                        ),
                    );
                }
                let stage = match description.string_oid_count {
                    Some(count) if count > 0 => MenuStage::Strings(
                        description,
                        MenuStringOids::new(group, menu, count),
                    ),
                    _ => MenuStage::Numbers(description),
                };
                Ok(Progress::More(MenuFetch { group, menu, stage }))
            },
            MenuStage::Numbers(description) => {
                let oids = match MenuNumericOids::parse(frame) {
                    Ok(oids) => oids,
                    Err(error) => return Err(ClientError::from_protocol(error)),
                };
                if oids.group != group || oids.menu != menu {
                    return Err(
                        ClientError::InvalidDiscovery(
                            "menu OID response does not match its request",
                        ),
                    );
                }
                let members = numeric_oids(&oids.oids);
                Ok(Progress::Done(make_menu(group, menu, description, members)))
            },
            MenuStage::Strings(description, oids) => match oids.reply(frame) {
                Err(error) => Err(error),
                Ok(oids) => if oids.is_complete() {
                    let members = oids.into_oids();
                    Ok(Progress::Done(make_menu(group, menu, description, members)))
                } else {
                    let stage = MenuStage::Strings(description, oids);
                    Ok(Progress::More(MenuFetch { group, menu, stage }))
                },
            },
        }
    }
}

/// A group, and what went wrong with some of its menus.
#[derive(Debug)]
pub struct FoundGroup {
    pub group: MenuGroup,
    pub errors: Vec<String>,
}

/// The value of a `FoundGroup`.
pub struct FoundGroupView {
    pub group: MenuGroupView,
    pub errors: Seq<Seq<char>>,
}

impl View for FoundGroup {
    type V = FoundGroupView;

    open spec fn view(&self) -> FoundGroupView {
        FoundGroupView { group: self.group@, errors: views(self.errors@) }
    }
}

/// How far a group is known.
#[derive(Debug)]
enum GroupStage {
    Name,
    Count(String),
    Menus { name: String, count: u8, menus: Vec<Menu>, errors: Vec<String>, current: MenuFetch },
}

/// How far a group is known: not at all, its name, or also how many menus it has and some of
/// them.
pub enum GroupStageView {
    Name,
    Count(Seq<char>),
    Menus {
        name: Seq<char>,
        count: u8,
        menus: Seq<MenuView>,
        errors: Seq<Seq<char>>,
        current: MenuFetchView,
    },
}

/// A group that is asked for.
#[derive(Debug)]
pub struct GroupFetch {
    group: u8,
    stage: GroupStage,
}

/// The value of a `GroupFetch`.
pub struct GroupFetchView {
    pub group: u8,
    pub stage: GroupStageView,
}

impl View for GroupFetch {
    type V = GroupFetchView;

    closed spec fn view(&self) -> GroupFetchView {
        GroupFetchView {
            group: self.group,
            stage: match self.stage {
                GroupStage::Name => GroupStageView::Name,
                GroupStage::Count(name) => GroupStageView::Count(name@),
                GroupStage::Menus { name, count, menus, errors, current } => GroupStageView::Menus {
                    name: name@,
                    count,
                    menus: views(menus@),
                    errors: views(errors@),
                    current: current@,
                },
            },
        }
    }
}

/// A group of which nothing is known.
pub open spec fn new_group(group: u8) -> GroupFetchView {
    GroupFetchView { group, stage: GroupStageView::Name }
}

/// A request about a group.
pub open spec fn about_group(address: u8, message_type: u8, group: u8) -> AskView {
    AskView {
        request: request_of(address, message_type, seq![0u8, group]),
        attempts: ATTEMPTS,
        correlation: CorrelationView::MenuGroup(group),
    }
}

/// The next request; none where all is known.
pub open spec fn group_ask(group: GroupFetchView, address: u8) -> Option<AskView> {
    match group.stage {
        GroupStageView::Name => Some(about_group(address, GET_MENUSET_NAME, group.group)),
        GroupStageView::Count(_) => Some(about_group(address, GET_MENU_COUNT, group.group)),
        GroupStageView::Menus { current, .. } => menu_ask(current, address),
    }
}

/// The group after one of its menus: with the next menu, or complete.
pub open spec fn after_menu(
    group: u8,
    name: Seq<char>,
    count: u8,
    menus: Seq<MenuView>,
    errors: Seq<Seq<char>>,
    menu: u8,
) -> Progress<GroupFetchView, FoundGroupView> {
    if menu + 1 < count {
        Progress::More(
            GroupFetchView {
                group,
                stage: GroupStageView::Menus {
                    name,
                    count,
                    menus,
                    errors,
                    current: new_menu(group, (menu + 1) as u8),
                },
            },
        )
    } else {
        Progress::Done(
            FoundGroupView { group: MenuGroupView { index: group, name, menus }, errors },
        )
    }
}

/// What is said of a menu that was not found.
pub open spec fn menu_failure(group: u8, menu: u8, error: ClientErrorView) -> Seq<char> {
    "menu group "@ + decimal(group as nat) + ", menu "@ + decimal(menu as nat) + ": "@
        + client_error_text(error)
}

/// What the outcome of a request brings. A menu that fails is noted, and the next one is asked
/// for.
pub open spec fn group_event(
    group: GroupFetchView,
    outcome: Result<Seq<u8>, ClientErrorView>,
) -> Result<Progress<GroupFetchView, FoundGroupView>, ClientErrorView> {
    match group.stage {
        GroupStageView::Name => match outcome {
            Err(error) => Err(error),
            Ok(content) => match answered(parsed_group_name(content)) {
                Err(error) => Err(error),
                Ok(name) => if name.group != group.group {
                    unusable("menu group name response does not match its request"@)
                } else {
                    Ok(
                        Progress::More(
                            GroupFetchView { stage: GroupStageView::Count(name.name), ..group },
                        ),
                    )
                },
            },
        },
        GroupStageView::Count(name) => match outcome {
            Err(error) => Err(error),
            Ok(content) => match answered(parsed_menu_count(content)) {
                Err(error) => Err(error),
                Ok(count) => if count.group != group.group {
                    unusable("menu count response does not match its request"@)
                } else if count.count == 0 {
                    Ok(
                        Progress::Done(
                            FoundGroupView {
                                group: MenuGroupView { index: group.group, name, menus: seq![] },
                                errors: seq![],
                            },
                        ),
                    )
                } else {
                    Ok(
                        Progress::More(
                            GroupFetchView {
                                stage: GroupStageView::Menus {
                                    name,
                                    count: count.count,
                                    menus: seq![],
                                    errors: seq![],
                                    current: new_menu(group.group, 0),
                                },
                                ..group
                            },
                        ),
                    )
                },
            },
        },
        GroupStageView::Menus { name, count, menus, errors, current } => {
            let reply = match outcome {
                Err(error) => Err(error),
                Ok(content) => menu_reply(current, content),
            };
            Ok(
                match reply {
                    Ok(Progress::More(current)) => Progress::More(
                        GroupFetchView {
                            stage: GroupStageView::Menus { name, count, menus, errors, current },
                            ..group
                        },
                    ),
                    Ok(Progress::Done(menu)) => after_menu(
                        group.group,
                        name,
                        count,
                        menus.push(menu),
                        errors,
                        current.menu,
                    ),
                    Err(error) => after_menu(
                        group.group,
                        name,
                        count,
                        menus,
                        errors.push(menu_failure(group.group, current.menu, error)),
                        current.menu,
                    ),
                },
            )
        },
    }
}

fn next_menu(
    group: u8,
    name: String,
    count: u8,
    menus: Vec<Menu>,
    errors: Vec<String>,
    menu: u8,
) -> (r: Progress<GroupFetch, FoundGroup>)
    ensures
        r@ == after_menu(group, name@, count, views(menus@), views(errors@), menu),
{
    if (menu as u16) + 1 < count as u16 {
        let current = MenuFetch::new(group, menu + 1);
        let stage = GroupStage::Menus { name, count, menus, errors, current };
        Progress::More(GroupFetch { group, stage })
    } else {
        Progress::Done(FoundGroup { group: MenuGroup { index: group, name, menus }, errors })
    }
}

fn menu_failure_text(group: u8, menu: u8, error: &ClientError) -> (r: String)
    ensures
        r@ == menu_failure(group, menu, error@),
{
    let start = with_number("menu group ", group as u64, ", menu ");
    concat(&with_number(&start, menu as u64, ": "), &error.to_string())
}

impl GroupFetch {
    pub fn new(group: u8) -> (r: Self)
        ensures
            r@ == new_group(group),
    {
        GroupFetch { group, stage: GroupStage::Name }
    }

    fn index(&self) -> (r: u8)
        ensures
            r == self@.group,
    {
        self.group
    }

    /// The next request.
    pub fn ask(&self, address: u8) -> (r: Ask)
        ensures
            group_ask(self@, address) == Some(r@),
    {
        let message_type: u8 = match &self.stage {
            GroupStage::Name => GET_MENUSET_NAME,
            GroupStage::Count(_) => GET_MENU_COUNT,
            GroupStage::Menus { current, .. } => {
                return current.ask(address);
            },
        };
        Ask {
            request: menu_group_request(address, message_type, self.group),
            attempts: ATTEMPTS,
            correlation: Correlation::MenuGroup(self.group),
        }
    }

    /// Takes the outcome of a request.
    pub fn event(self, outcome: Result<Frame, ClientError>) -> (r: Result<
        Progress<GroupFetch, FoundGroup>,
        ClientError,
    >)
        ensures
            result_view(r) == group_event(self@, outcome_view(outcome)),
    {
        let group: u8 = self.group;
        match self.stage {
            GroupStage::Name => {
                let frame = match outcome {
                    Ok(frame) => frame,
                    Err(error) => return Err(error),
                };
                match MenuGroupName::parse(&frame) {
                    Err(error) => Err(ClientError::from_protocol(error)),
                    Ok(name) => if name.group != group {
                        Err(
                            ClientError::InvalidDiscovery(
                                "menu group name response does not match its request",
                            ),
                        )
                    } else {
                        Ok(Progress::More(GroupFetch { group, stage: GroupStage::Count(name.name) }))
                    },
                }
            },
            GroupStage::Count(name) => {
                let frame = match outcome {
                    Ok(frame) => frame,
                    Err(error) => return Err(error),
                };
                match MenuCount::parse(&frame) {
                    Err(error) => Err(ClientError::from_protocol(error)),
                    Ok(count) => if count.group != group {
                        Err(
                            ClientError::InvalidDiscovery(
                                "menu count response does not match its request",
                            ),
                        )
                    } else {
                        let menus: Vec<Menu> = Vec::new();
                        let errors: Vec<String> = Vec::new();
                        assert(views(menus@) =~= seq![]);
                        assert(views(errors@) =~= seq![]);
                        if count.count == 0 {
                            Ok(
                                Progress::Done(
                                    FoundGroup {
                                        group: MenuGroup { index: group, name, menus },
                                        errors,
                                    },
                                ),
                            )
                        } else {
                            let stage = GroupStage::Menus {
                                name,
                                count: count.count,
                                menus,
                                errors,
                                current: MenuFetch::new(group, 0),
                            };
                            Ok(Progress::More(GroupFetch { group, stage }))
                        }
                    },
                }
            },
            GroupStage::Menus { name, count, mut menus, mut errors, current } => {
                let menu: u8 = current.index();
                let reply = match outcome {
                    Ok(frame) => current.reply(&frame),
                    Err(error) => Err(error),
                };
                Ok(
                    match reply {
                        Ok(Progress::More(current)) => Progress::More(
                            GroupFetch {
                                group,
                                stage: GroupStage::Menus { name, count, menus, errors, current },
                            },
                        ),
                        Ok(Progress::Done(found)) => {
                            let ghost before = menus@;
                            let ghost view = found@;
                            menus.push(found);
                            assert(views(menus@) =~= views(before).push(view));
                            next_menu(group, name, count, menus, errors, menu)
                        },
                        Err(error) => {
                            let text = menu_failure_text(group, menu, &error);
                            let ghost before = errors@;
                            let ghost view = text@;
                            errors.push(text);
                            assert(views(errors@) =~= views(before).push(view));
                            next_menu(group, name, count, menus, errors, menu)
                        },
                    },
                )
            },
        }
    }
}

/// The menus of a device, what went wrong with some of them, and the groups that are not fully
/// known.
#[derive(Debug)]
pub struct FoundMenus {
    pub groups: Vec<MenuGroup>,
    pub error: Option<String>,
    pub incomplete: Vec<u8>,
}

/// The value of a `FoundMenus`.
pub struct FoundMenusView {
    pub groups: Seq<MenuGroupView>,
    pub error: Option<Seq<char>>,
    pub incomplete: Seq<u8>,
}

impl View for FoundMenus {
    type V = FoundMenusView;

    open spec fn view(&self) -> FoundMenusView {
        FoundMenusView {
            groups: views(self.groups@),
            error: option_view(self.error),
            incomplete: self.incomplete@,
        }
    }
}

/// The menus of a device that are asked for.
#[derive(Debug)]
pub struct MenusFetch {
    groups: Vec<MenuGroup>,
    errors: Vec<String>,
    incomplete: Vec<u8>,
    current: GroupFetch,
}

/// The value of a `MenusFetch`.
pub struct MenusFetchView {
    pub groups: Seq<MenuGroupView>,
    pub errors: Seq<Seq<char>>,
    pub incomplete: Seq<u8>,
    pub current: GroupFetchView,
}

impl View for MenusFetch {
    type V = MenusFetchView;

    closed spec fn view(&self) -> MenusFetchView {
        MenusFetchView {
            groups: views(self.groups@),
            errors: views(self.errors@),
            incomplete: self.incomplete@,
            current: self.current@,
        }
    }
}

/// The menus of a device of which nothing is known.
pub open spec fn new_menus() -> MenusFetchView {
    MenusFetchView { groups: seq![], errors: seq![], incomplete: seq![], current: new_group(0) }
}

/// The menus after one of the two groups: with the second group, or complete.
pub open spec fn after_group(
    groups: Seq<MenuGroupView>,
    errors: Seq<Seq<char>>,
    incomplete: Seq<u8>,
    group: u8,
) -> Progress<MenusFetchView, FoundMenusView> {
    if group == 0 {
        Progress::More(MenusFetchView { groups, errors, incomplete, current: new_group(1) })
    } else {
        Progress::Done(
            FoundMenusView {
                groups,
                error: if errors.len() == 0 {
                    None
                } else {
                    Some(joined(errors, "; "@))
                },
                incomplete,
            },
        )
    }
}

/// What is said of a group that was not found.
pub open spec fn group_failure(group: u8, error: ClientErrorView) -> Seq<char> {
    "menu group "@ + decimal(group as nat) + ": "@ + client_error_text(error)
}

/// What the outcome of a request brings. A group that fails is noted, and the next one is asked
/// for. A group is not fully known where it or one of its menus failed.
pub open spec fn menus_event(
    menus: MenusFetchView,
    outcome: Result<Seq<u8>, ClientErrorView>,
) -> Progress<MenusFetchView, FoundMenusView> {
    let group = menus.current.group;
    match group_event(menus.current, outcome) {
        Ok(Progress::More(current)) => Progress::More(MenusFetchView { current, ..menus }),
        Ok(Progress::Done(found)) => after_group(
            menus.groups.push(found.group),
            menus.errors + found.errors,
            if found.errors.len() == 0 {
                menus.incomplete
            } else {
                menus.incomplete.push(group)
            },
            group,
        ),
        Err(error) => after_group(
            menus.groups,
            menus.errors.push(group_failure(group, error)),
            menus.incomplete.push(group),
            group,
        ),
    }
}

fn next_group(
    groups: Vec<MenuGroup>,
    errors: Vec<String>,
    incomplete: Vec<u8>,
    group: u8,
) -> (r: Progress<MenusFetch, FoundMenus>)
    ensures
        r@ == after_group(views(groups@), views(errors@), incomplete@, group),
{
    if group == 0 {
        Progress::More(MenusFetch { groups, errors, incomplete, current: GroupFetch::new(1) })
    } else {
        let error = if errors.len() == 0 {
            None
        } else {
            Some(join(&errors, "; "))
        };
        Progress::Done(FoundMenus { groups, error, incomplete })
    }
}

impl MenusFetch {
    pub fn new() -> (r: Self)
        ensures
            r@ == new_menus(),
    {
        let r = MenusFetch {
            groups: Vec::new(),
            errors: Vec::new(),
            incomplete: Vec::new(),
            current: GroupFetch::new(0),
        };
        assert(r@.groups =~= seq![]);
        assert(r@.errors =~= seq![]);
        assert(r@.incomplete =~= seq![]);
        r
    }

    /// The next request.
    pub fn ask(&self, address: u8) -> (r: Ask)
        ensures
            group_ask(self@.current, address) == Some(r@),
    {
        self.current.ask(address)
    }

    /// Takes the outcome of a request.
    pub fn event(self, outcome: Result<Frame, ClientError>) -> (r: Progress<
        MenusFetch,
        FoundMenus,
    >)
        ensures
            r@ == menus_event(self@, outcome_view(outcome)),
    {
        let group: u8 = self.current.index();
        let mut groups = self.groups;
        let mut errors = self.errors;
        let mut incomplete = self.incomplete;
        match self.current.event(outcome) {
            Ok(Progress::More(current)) => Progress::More(
                MenusFetch { groups, errors, incomplete, current },
            ),
            Ok(Progress::Done(mut found)) => {
                if found.errors.len() > 0 {
                    incomplete.push(group);
                }
                let ghost before = groups@;
                let ghost view = found.group@;
                let ghost earlier = views(errors@);
                let ghost more = views(found.errors@);
                groups.push(found.group);
                errors.append(&mut found.errors);
                assert(views(groups@) =~= views(before).push(view));
                assert(views(errors@) =~= earlier + more);
                next_group(groups, errors, incomplete, group)
            },
            Err(error) => {
                incomplete.push(group);
                let text = concat(
                    &with_number("menu group ", group as u64, ": "),
                    &error.to_string(),
                );
                let ghost before = errors@;
                let ghost view = text@;
                errors.push(text);
                assert(views(errors@) =~= views(before).push(view));
                next_group(groups, errors, incomplete, group)
            },
        }
    }
}

} // verus!
