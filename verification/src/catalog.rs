//! The parameters and menus of a device, and how a parameter is found among them.

use crate::bytes::contains_byte;
use crate::model::{
    oid_text, parsed_oid, selector_text, IdentityView, OidView, Parameter, ParameterIdentity,
    ParameterOid, ParameterSelector, ParameterView, SelectorView,
};
use crate::text::{concat, debug_text, fold, quoted, same_fold};
use crate::views::{
    clone_all, clone_option, lemma_filter_next, lemma_filter_none, option_view, result_view, views,
};
use std::collections::HashSet;
use vstd::hash_set::StringHashSet;
use vstd::prelude::*;
use vstd::string::*;

verus! {

/// A menu: the parameters that it shows.
#[derive(Debug, PartialEq, Eq)]
pub struct Menu {
    pub index: u8,
    pub name: String,
    pub stable_id: u16,
    pub layout_url: Option<String>,
    pub members: Vec<ParameterOid>,
}

/// The value of a `Menu`.
pub struct MenuView {
    pub index: u8,
    pub name: Seq<char>,
    pub stable_id: u16,
    pub layout_url: Option<Seq<char>>,
    pub members: Seq<OidView>,
}

impl View for Menu {
    type V = MenuView;

    open spec fn view(&self) -> MenuView {
        MenuView {
            index: self.index,
            name: self.name@,
            stable_id: self.stable_id,
            layout_url: option_view(self.layout_url),
            members: views(self.members@),
        }
    }
}

impl Clone for Menu {
    fn clone(&self) -> (r: Self)
        ensures
            r@ == self@,
    {
        Menu {
            index: self.index,
            name: self.name.clone(),
            stable_id: self.stable_id,
            layout_url: clone_option(&self.layout_url),
            members: clone_all(&self.members),
        }
    }
}

/// A group of menus.
#[derive(Debug, PartialEq, Eq)]
pub struct MenuGroup {
    pub index: u8,
    pub name: String,
    pub menus: Vec<Menu>,
}

/// The value of a `MenuGroup`.
pub struct MenuGroupView {
    pub index: u8,
    pub name: Seq<char>,
    pub menus: Seq<MenuView>,
}

impl View for MenuGroup {
    type V = MenuGroupView;

    open spec fn view(&self) -> MenuGroupView {
        MenuGroupView { index: self.index, name: self.name@, menus: views(self.menus@) }
    }
}

impl Clone for MenuGroup {
    fn clone(&self) -> (r: Self)
        ensures
            r@ == self@,
    {
        MenuGroup { index: self.index, name: self.name.clone(), menus: clone_all(&self.menus) }
    }
}

/// Which menu is meant.
#[derive(Debug, Clone, PartialEq, Eq)]
pub struct MenuIdentity {
    pub group: String,
    pub menu: String,
    pub group_index: u8,
    pub menu_index: u8,
}

/// The value of a `MenuIdentity`.
pub struct MenuIdentityView {
    pub group: Seq<char>,
    pub menu: Seq<char>,
    pub group_index: u8,
    pub menu_index: u8,
}

impl View for MenuIdentity {
    type V = MenuIdentityView;

    open spec fn view(&self) -> MenuIdentityView {
        MenuIdentityView {
            group: self.group@,
            menu: self.menu@,
            group_index: self.group_index,
            menu_index: self.menu_index,
        }
    }
}

/// Which group is meant.
#[derive(Debug, Clone, PartialEq, Eq)]
pub struct MenuGroupIdentity {
    pub group: String,
    pub group_index: u8,
}

/// The value of a `MenuGroupIdentity`.
pub struct GroupIdentityView {
    pub group: Seq<char>,
    pub group_index: u8,
}

impl View for MenuGroupIdentity {
    type V = GroupIdentityView;

    open spec fn view(&self) -> GroupIdentityView {
        GroupIdentityView { group: self.group@, group_index: self.group_index }
    }
}

/// Where a parameter is shown, and whether the group is needed to say so.
#[derive(Debug, Clone, PartialEq, Eq)]
pub struct MenuPath {
    pub group: String,
    pub menu: String,
    pub group_required: bool,
}

/// The value of a `MenuPath`.
pub struct MenuPathView {
    pub group: Seq<char>,
    pub menu: Seq<char>,
    pub group_required: bool,
}

impl View for MenuPath {
    type V = MenuPathView;

    open spec fn view(&self) -> MenuPathView {
        MenuPathView {
            group: self.group@,
            menu: self.menu@,
            group_required: self.group_required,
        }
    }
}

/// A parameter that may be meant, and where it is shown.
#[derive(Debug, Clone, PartialEq, Eq)]
pub struct ParameterCandidate {
    pub parameter: ParameterIdentity,
    pub menus: Vec<MenuPath>,
}

/// The value of a `ParameterCandidate`.
pub struct CandidateView {
    pub parameter: IdentityView,
    pub menus: Seq<MenuPathView>,
}

impl View for ParameterCandidate {
    type V = CandidateView;

    open spec fn view(&self) -> CandidateView {
        CandidateView { parameter: self.parameter@, menus: views(self.menus@) }
    }
}

/// Why a parameter or a menu was not found.
#[derive(Debug)]
pub enum ResolveError {
    NotFound(String),
    AmbiguousDisplayName { name: String, candidates: Vec<ParameterCandidate> },
    MenusUnavailable(String),
    MenuNotFound { group: Option<String>, menu: String },
    AmbiguousMenu { menu: String, candidates: Vec<MenuIdentity> },
    AmbiguousGroup { group: String, candidates: Vec<MenuGroupIdentity> },
    ParameterNotFoundInMenu { menu: String, selector: String },
}

/// The value of a `ResolveError`.
pub enum ResolveErrorView {
    NotFound(Seq<char>),
    AmbiguousDisplayName { name: Seq<char>, candidates: Seq<CandidateView> },
    MenusUnavailable(Seq<char>),
    MenuNotFound { group: Option<Seq<char>>, menu: Seq<char> },
    AmbiguousMenu { menu: Seq<char>, candidates: Seq<MenuIdentityView> },
    AmbiguousGroup { group: Seq<char>, candidates: Seq<GroupIdentityView> },
    ParameterNotFoundInMenu { menu: Seq<char>, selector: Seq<char> },
}

impl View for ResolveError {
    type V = ResolveErrorView;

    open spec fn view(&self) -> ResolveErrorView {
        match *self {
            ResolveError::NotFound(text) => ResolveErrorView::NotFound(text@),
            ResolveError::AmbiguousDisplayName { name, candidates } =>
                ResolveErrorView::AmbiguousDisplayName {
                name: name@,
                candidates: views(candidates@),
            },
            ResolveError::MenusUnavailable(text) => ResolveErrorView::MenusUnavailable(text@),
            ResolveError::MenuNotFound { group, menu } => ResolveErrorView::MenuNotFound {
                group: option_view(group),
                menu: menu@,
            },
            ResolveError::AmbiguousMenu { menu, candidates } => ResolveErrorView::AmbiguousMenu {
                menu: menu@,
                candidates: views(candidates@),
            },
            ResolveError::AmbiguousGroup { group, candidates } =>
                ResolveErrorView::AmbiguousGroup { group: group@, candidates: views(candidates@) },
            ResolveError::ParameterNotFoundInMenu { menu, selector } =>
                ResolveErrorView::ParameterNotFoundInMenu { menu: menu@, selector: selector@ },
        }
    }
}

/// What is said of an error.
pub open spec fn resolve_error_text(error: ResolveErrorView) -> Seq<char> {
    match error {
        ResolveErrorView::NotFound(selector) => "parameter not found: "@ + selector,
        ResolveErrorView::AmbiguousDisplayName { name, .. } => "display name "@ + debug_text(name)
            + " is ambiguous"@,
        ResolveErrorView::MenusUnavailable(reason) => "menu metadata is unavailable: "@ + reason,
        ResolveErrorView::MenuNotFound { group, menu } => "menu "@ + debug_text(menu)
            + " was not found"@ + (match group {
            Some(group) => " in group "@ + debug_text(group),
            None => ""@,
        }),
        ResolveErrorView::AmbiguousMenu { menu, .. } => "menu name "@ + debug_text(menu)
            + " is ambiguous"@,
        ResolveErrorView::AmbiguousGroup { group, .. } => "menu group name "@ + debug_text(group)
            + " is ambiguous"@,
        ResolveErrorView::ParameterNotFoundInMenu { menu, selector } => "parameter "@ + debug_text(
            selector,
        ) + " was not found in menu "@ + debug_text(menu),
    }
}

impl ResolveError {
    /// What is said of the error.
    pub fn to_string(&self) -> (r: String)
        ensures
            r@ == resolve_error_text(self@),
    {
        match self {
            Self::NotFound(selector) => concat("parameter not found: ", selector),
            Self::AmbiguousDisplayName { name, .. } => concat(
                &concat("display name ", &quoted(name)),
                " is ambiguous",
            ),
            Self::MenusUnavailable(reason) => concat("menu metadata is unavailable: ", reason),
            Self::MenuNotFound { group, menu } => {
                let text = concat(&concat("menu ", &quoted(menu)), " was not found");
                match group {
                    Some(group) => concat(&text, &concat(" in group ", &quoted(group))),
                    None => concat(&text, ""),
                }
            },
            Self::AmbiguousMenu { menu, .. } => concat(
                &concat("menu name ", &quoted(menu)),
                " is ambiguous",
            ),
            Self::AmbiguousGroup { group, .. } => concat(
                &concat("menu group name ", &quoted(group)),
                " is ambiguous",
            ),
            Self::ParameterNotFoundInMenu { menu, selector } => {
                let start = concat("parameter ", &quoted(selector));
                concat(&concat(&start, " was not found in menu "), &quoted(menu))
            },
        }
    }
}

/// What is wrong with the parameters of a device.
#[derive(Debug)]
pub enum CatalogError {
    DuplicateOid(ParameterOid),
}

/// The value of a `CatalogError`.
pub enum CatalogErrorView {
    DuplicateOid(OidView),
}

impl View for CatalogError {
    type V = CatalogErrorView;

    open spec fn view(&self) -> CatalogErrorView {
        match *self {
            CatalogError::DuplicateOid(oid) => CatalogErrorView::DuplicateOid(oid@),
        }
    }
}

/// What is said of an error.
pub open spec fn catalog_error_text(error: CatalogErrorView) -> Seq<char> {
    match error {
        CatalogErrorView::DuplicateOid(oid) => "device returned duplicate OID "@ + oid_text(oid),
    }
}

impl CatalogError {
    /// What is said of the error.
    pub fn to_string(&self) -> (r: String)
        ensures
            r@ == catalog_error_text(self@),
    {
        match self {
            Self::DuplicateOid(oid) => concat("device returned duplicate OID ", &oid.to_string()),
        }
    }
}

/// The parameters and menus of a device.
#[derive(Debug, Clone, PartialEq)]
pub struct DeviceCatalog {
    pub parameters: Vec<Parameter>,
    pub menus: Vec<MenuGroup>,
    pub menu_discovery_error: Option<String>,
    pub incomplete_menu_groups: Vec<u8>,
}

/// The value of a `DeviceCatalog`.
pub struct CatalogView {
    pub parameters: Seq<ParameterView>,
    pub menus: Seq<MenuGroupView>,
    pub menu_discovery_error: Option<Seq<char>>,
    pub incomplete_menu_groups: Seq<u8>,
}

impl View for DeviceCatalog {
    type V = CatalogView;

    open spec fn view(&self) -> CatalogView {
        CatalogView {
            parameters: views(self.parameters@),
            menus: views(self.menus@),
            menu_discovery_error: option_view(self.menu_discovery_error),
            incomplete_menu_groups: self.incomplete_menu_groups@,
        }
    }
}

/// Whether one of the parameters has the OID.
pub open spec fn has_oid(parameters: Seq<ParameterView>, oid: OidView) -> bool {
    exists|i: int| 0 <= i < parameters.len() && (#[trigger] parameters[i]).oid == oid
}

/// The OID of the first parameter whose OID an earlier one has.
pub open spec fn first_duplicate(parameters: Seq<ParameterView>) -> Option<OidView>
    decreases parameters.len(),
{
    if parameters.len() == 0 {
        None
    } else {
        match first_duplicate(parameters.drop_last()) {
            Some(oid) => Some(oid),
            None => if has_oid(parameters.drop_last(), parameters.last().oid) {
                Some(parameters.last().oid)
            } else {
                None
            },
        }
    }
}

/// A catalog of the parameters, none of which share an OID, before any menu is known.
pub open spec fn new_catalog(parameters: Seq<ParameterView>) -> Result<
    CatalogView,
    CatalogErrorView,
> {
    match first_duplicate(parameters) {
        Some(oid) => Err(CatalogErrorView::DuplicateOid(oid)),
        None => Ok(
            CatalogView {
                parameters,
                menus: seq![],
                menu_discovery_error: Some("menu discovery was not performed"@),
                incomplete_menu_groups: seq![0u8, 1u8],
            },
        ),
    }
}

proof fn lemma_first_duplicate_stays(parameters: Seq<ParameterView>, count: int)
    requires
        0 <= count <= parameters.len(),
        first_duplicate(parameters.take(count)) is Some,
    ensures
        first_duplicate(parameters) == first_duplicate(parameters.take(count)),
    decreases parameters.len() - count,
{
    if count < parameters.len() {
        assert(parameters.take(count + 1).drop_last() =~= parameters.take(count));
        lemma_first_duplicate_stays(parameters, count + 1);
    } else {
        assert(parameters.take(count) =~= parameters);
    }
}

impl DeviceCatalog {
    /// A catalog of the parameters, before any menu is known.
    pub fn new(parameters: Vec<Parameter>) -> (r: Result<Self, CatalogError>)
        ensures
            result_view(r) == new_catalog(views(parameters@)),
    {
        broadcast use vstd::std_specs::hash::group_hash_axioms;

        let mut numbers: HashSet<u16> = HashSet::new();
        let mut texts = StringHashSet::new();
        let mut i: usize = 0;
        let ghost all = views(parameters@);
        while i < parameters.len()
            invariant
                i <= parameters@.len(),
                all == views(parameters@),
                first_duplicate(all.take(i as int)) is None,
                forall|n: u16|
                    #[trigger] numbers@.contains(n) == has_oid(
                        all.take(i as int),
                        OidView::Numeric(n),
                    ),
                forall|t: Seq<char>|
                    #[trigger] texts@.contains(t) == has_oid(
                        all.take(i as int),
                        OidView::String(t),
                    ),
            decreases parameters@.len() - i,
        {
            let ghost before = all.take(i as int);
            let ghost after = all.take(i + 1);
            assert(after.drop_last() =~= before);
            assert(after.last() == all[i as int]);
            let fresh = match &parameters[i].oid {
                ParameterOid::Numeric(n) => numbers.insert(*n),
                ParameterOid::String(t) => texts.insert(t.clone()),
            };
            if !fresh {
                let oid = parameters[i].oid.clone();
                proof {
                    assert(all[i as int].oid == oid@);
                    lemma_first_duplicate_stays(all, i + 1);
                }
                return Err(CatalogError::DuplicateOid(oid));
            }
            proof {
                assert forall|o: OidView| has_oid(after, o) == (has_oid(before, o) || o
                    == all[i as int].oid) by {
                    if has_oid(before, o) {
                        let k = choose|k: int| 0 <= k < before.len() && before[k].oid == o;
                        assert(after[k].oid == o);
                    }
                    if o == all[i as int].oid {
                        assert(after[i as int].oid == o);
                    }
                    if has_oid(after, o) {
                        let k = choose|k: int| 0 <= k < after.len() && after[k].oid == o;
                        if k < i {
                            assert(before[k].oid == o);
                        }
                    }
                }
            }
            i += 1;
        }
        assert(all.take(i as int) =~= all);
        let catalog = DeviceCatalog {
            parameters,
            menus: Vec::new(),
            menu_discovery_error: Some("menu discovery was not performed".to_owned()),
            incomplete_menu_groups: vec![0, 1],
        };
        assert(catalog@.menus =~= seq![]);
        assert(catalog@.incomplete_menu_groups =~= seq![0u8, 1u8]);
        Ok(catalog)
    }

    /// Takes what is known of the menus.
    pub fn set_menus(
        &mut self,
        menus: Vec<MenuGroup>,
        error: Option<String>,
        incomplete_groups: Vec<u8>,
    )
        ensures
            final(self)@ == (CatalogView {
                parameters: old(self)@.parameters,
                menus: views(menus@),
                menu_discovery_error: option_view(error),
                incomplete_menu_groups: incomplete_groups@,
            }),
    {
        self.menus = menus;
        self.menu_discovery_error = error;
        self.incomplete_menu_groups = incomplete_groups;
    }
}

/// The first parameter with the OID.
pub open spec fn with_oid(parameters: Seq<ParameterView>, oid: OidView) -> Option<ParameterView>
    decreases parameters.len(),
{
    if parameters.len() == 0 {
        None
    } else {
        match with_oid(parameters.drop_last(), oid) {
            Some(parameter) => Some(parameter),
            None => if parameters.last().oid == oid {
                Some(parameters.last())
            } else {
                None
            },
        }
    }
}

proof fn lemma_with_oid_stays(parameters: Seq<ParameterView>, oid: OidView, count: int)
    requires
        0 <= count <= parameters.len(),
        with_oid(parameters.take(count), oid) is Some,
    ensures
        with_oid(parameters, oid) == with_oid(parameters.take(count), oid),
    decreases parameters.len() - count,
{
    if count < parameters.len() {
        assert(parameters.take(count + 1).drop_last() =~= parameters.take(count));
        lemma_with_oid_stays(parameters, oid, count + 1);
    } else {
        assert(parameters.take(count) =~= parameters);
    }
}

/// Whether a parameter has the display name, in whatever case.
pub open spec fn named(name: Seq<char>) -> spec_fn(ParameterView) -> bool {
    |parameter: ParameterView| fold(parameter.display_name) == fold(name)
}

/// The parameters with the display name that have no OID of an earlier one, behind `found`.
pub open spec fn with_named(
    found: Seq<ParameterView>,
    parameters: Seq<ParameterView>,
    name: Seq<char>,
) -> Seq<ParameterView>
    decreases parameters.len(),
{
    if parameters.len() == 0 {
        found
    } else {
        let before = with_named(found, parameters.drop_last(), name);
        let last = parameters.last();
        if named(name)(last) && !has_oid(before, last.oid) {
            before.push(last)
        } else {
            before
        }
    }
}

/// The parameters that a text may mean: the one whose OID it is, and those whose name it is.
pub open spec fn meant_by(parameters: Seq<ParameterView>, text: Seq<char>) -> Seq<ParameterView> {
    let found = match parsed_oid(text) {
        Ok(oid) => match with_oid(parameters, oid) {
            Some(parameter) => seq![parameter],
            None => seq![],
        },
        Err(_) => seq![],
    };
    with_named(found, parameters, text)
}

/// The one parameter that is meant. There must be one, and no other.
pub open spec fn only(
    matches: Seq<ParameterView>,
    missing: ResolveErrorView,
    name: Seq<char>,
    candidates: Seq<CandidateView>,
) -> Result<ParameterView, ResolveErrorView> {
    if matches.len() == 0 {
        Err(missing)
    } else if matches.len() == 1 {
        Ok(matches[0])
    } else {
        Err(ResolveErrorView::AmbiguousDisplayName { name, candidates })
    }
}

/// Each menu with its group, in order.
pub open spec fn all_menus(groups: Seq<MenuGroupView>) -> Seq<(MenuGroupView, MenuView)>
    decreases groups.len(),
{
    if groups.len() == 0 {
        seq![]
    } else {
        let last = groups.last();
        all_menus(groups.drop_last()) + last.menus.map_values(|menu: MenuView| (last, menu))
    }
}

/// Whether a menu has the name, in whatever case, and its group the name of a group where one is
/// given.
pub open spec fn menu_named(group_name: Option<Seq<char>>, menu_name: Seq<char>) -> spec_fn(
    (MenuGroupView, MenuView),
) -> bool {
    |place: (MenuGroupView, MenuView)|
        {
            &&& group_name matches Some(name) ==> fold(place.0.name) == fold(name)
            &&& fold(place.1.name) == fold(menu_name)
        }
}

/// Whether more than one menu has the name.
pub open spec fn menu_ambiguous(catalog: CatalogView, menu_name: Seq<char>) -> bool {
    all_menus(catalog.menus).filter(menu_named(None, menu_name)).len() > 1
}

/// Where a parameter is shown.
pub open spec fn path_of(catalog: CatalogView, place: (MenuGroupView, MenuView)) -> MenuPathView {
    MenuPathView {
        group: place.0.name,
        menu: place.1.name,
        group_required: menu_ambiguous(catalog, place.1.name),
    }
}

/// The paths of the menus that show the parameter with the OID, each once.
pub open spec fn paths_among(
    catalog: CatalogView,
    places: Seq<(MenuGroupView, MenuView)>,
    oid: OidView,
) -> Seq<MenuPathView>
    decreases places.len(),
{
    if places.len() == 0 {
        seq![]
    } else {
        let paths = paths_among(catalog, places.drop_last(), oid);
        let path = path_of(catalog, places.last());
        if places.last().1.members.contains(oid) && !paths.contains(path) {
            paths.push(path)
        } else {
            paths
        }
    }
}

/// The paths of the menus that show a parameter.
pub open spec fn paths_of(catalog: CatalogView, parameter: ParameterView) -> Seq<MenuPathView> {
    paths_among(catalog, all_menus(catalog.menus), parameter.oid)
}

pub open spec fn identity_of(parameter: ParameterView) -> IdentityView {
    IdentityView { oid: parameter.oid, display_name: parameter.display_name }
}

/// Each parameter with the paths of the menus that show it.
pub open spec fn candidates_of(catalog: CatalogView, matches: Seq<ParameterView>) -> Seq<
    CandidateView,
> {
    matches.map_values(
        |parameter: ParameterView|
            CandidateView {
                parameter: identity_of(parameter),
                menus: paths_of(catalog, parameter),
            },
    )
}

/// The parameter that a selector means.
pub open spec fn resolved_parameter(catalog: CatalogView, selector: SelectorView) -> Result<
    ParameterView,
    ResolveErrorView,
> {
    match selector {
        SelectorView::Oid(oid) => match with_oid(catalog.parameters, oid) {
            Some(parameter) => Ok(parameter),
            None => Err(ResolveErrorView::NotFound(selector_text(selector))),
        },
        SelectorView::DisplayName(name) => {
            let matches = catalog.parameters.filter(named(name));
            only(matches, ResolveErrorView::NotFound(name), name, candidates_of(catalog, matches))
        },
        SelectorView::Auto(text) => {
            let matches = meant_by(catalog.parameters, text);
            only(matches, ResolveErrorView::NotFound(text), text, candidates_of(catalog, matches))
        },
    }
}

/// The first parameter with the OID.
fn find_oid<'a>(parameters: &Vec<&'a Parameter>, oid: &ParameterOid) -> (r: Option<&'a Parameter>)
    ensures
        option_view(r) == with_oid(views(parameters@), oid@),
{
    let mut i: usize = 0;
    let ghost all = views(parameters@);
    while i < parameters.len()
        invariant
            i <= parameters@.len(),
            all == views(parameters@),
            with_oid(all.take(i as int), oid@) is None,
        decreases parameters@.len() - i,
    {
        assert(all.take(i + 1).drop_last() =~= all.take(i as int));
        assert(all.take(i + 1).last() == all[i as int]);
        if parameters[i].oid.same(oid) {
            proof {
                lemma_with_oid_stays(all, oid@, i + 1);
            }
            return Some(parameters[i]);
        }
        i += 1;
    }
    assert(all.take(i as int) =~= all);
    None
}

/// The parameters with the display name.
fn find_named<'a>(parameters: &Vec<&'a Parameter>, name: &str) -> (matches: Vec<&'a Parameter>)
    ensures
        views(matches@) == views(parameters@).filter(named(name@)),
{
    let mut matches: Vec<&'a Parameter> = Vec::new();
    let mut i: usize = 0;
    let ghost all = views(parameters@);
    proof {
        assert(views(matches@) =~= seq![]);
        lemma_filter_none(all.take(0), named(name@));
    }
    while i < parameters.len()
        invariant
            i <= parameters@.len(),
            all == views(parameters@),
            views(matches@) == all.take(i as int).filter(named(name@)),
        decreases parameters@.len() - i,
    {
        proof {
            lemma_filter_next(all, i as int, named(name@));
        }
        if same_fold(&parameters[i].display_name, name) {
            let ghost before = matches@;
            matches.push(parameters[i]);
            assert(views(matches@) =~= views(before).push(all[i as int]));
        }
        i += 1;
    }
    assert(all.take(i as int) =~= all);
    matches
}

/// The parameters that a text may mean.
fn find_meant<'a>(parameters: &Vec<&'a Parameter>, text: &str) -> (matches: Vec<&'a Parameter>)
    ensures
        views(matches@) == meant_by(views(parameters@), text@),
{
    let mut matches: Vec<&'a Parameter> = Vec::new();
    assert(views(matches@) =~= seq![]);
    if let Ok(oid) = ParameterOid::from_str(text) {
        if let Some(parameter) = find_oid(parameters, &oid) {
            matches.push(parameter);
            assert(views(matches@) =~= seq![parameter@]);
        }
    }
    let mut i: usize = 0;
    let ghost all = views(parameters@);
    let ghost found = views(matches@);
    assert(all.take(0) =~= seq![]);
    while i < parameters.len()
        invariant
            i <= parameters@.len(),
            all == views(parameters@),
            views(matches@) == with_named(found, all.take(i as int), text@),
        decreases parameters@.len() - i,
    {
        assert(all.take(i + 1).drop_last() =~= all.take(i as int));
        assert(all.take(i + 1).last() == all[i as int]);
        if same_fold(&parameters[i].display_name, text) && !includes_oid(
            &matches,
            &parameters[i].oid,
        ) {
            let ghost before = matches@;
            matches.push(parameters[i]);
            assert(views(matches@) =~= views(before).push(all[i as int]));
        }
        i += 1;
    }
    assert(all.take(i as int) =~= all);
    matches
}

/// Whether one of the parameters has the OID.
fn includes_oid(parameters: &Vec<&Parameter>, oid: &ParameterOid) -> (r: bool)
    ensures
        r == has_oid(views(parameters@), oid@),
{
    let mut i: usize = 0;
    while i < parameters.len()
        invariant
            i <= parameters@.len(),
            forall|k: int| 0 <= k < i ==> (#[trigger] views(parameters@)[k]).oid != oid@,
        decreases parameters@.len() - i,
    {
        if parameters[i].oid.same(oid) {
            assert(views(parameters@)[i as int].oid == oid@);
            return true;
        }
        i += 1;
    }
    false
}

/// Whether the OID is one of the first `count`.
fn contains_oid(oids: &Vec<ParameterOid>, count: usize, oid: &ParameterOid) -> (r: bool)
    requires
        count <= oids@.len(),
    ensures
        r == views(oids@).take(count as int).contains(oid@),
{
    let mut i: usize = 0;
    let ghost all = views(oids@).take(count as int);
    while i < count
        invariant
            i <= count <= oids@.len(),
            all == views(oids@).take(count as int),
            forall|k: int| 0 <= k < i ==> #[trigger] all[k] != oid@,
        decreases count - i,
    {
        if oids[i].same(oid) {
            assert(all[i as int] == oid@);
            return true;
        }
        i += 1;
    }
    false
}

fn includes_path(paths: &Vec<MenuPath>, path: &MenuPath) -> (r: bool)
    ensures
        r == views(paths@).contains(path@),
{
    let mut i: usize = 0;
    while i < paths.len()
        invariant
            i <= paths@.len(),
            forall|k: int| 0 <= k < i ==> #[trigger] views(paths@)[k] != path@,
        decreases paths@.len() - i,
    {
        if paths[i].group == path.group && paths[i].menu == path.menu && paths[i].group_required
            == path.group_required {
            assert(views(paths@)[i as int] == path@);
            return true;
        }
        i += 1;
    }
    false
}

impl DeviceCatalog {
    fn parameter_refs(&self) -> (r: Vec<&Parameter>)
        ensures
            views(r@) == self@.parameters,
    {
        let mut refs: Vec<&Parameter> = Vec::new();
        let mut i: usize = 0;
        while i < self.parameters.len()
            invariant
                i <= self.parameters@.len(),
                refs@.len() == i,
                forall|k: int| 0 <= k < i ==> views(refs@)[k] == self@.parameters[k],
            decreases self.parameters@.len() - i,
        {
            refs.push(&self.parameters[i]);
            i += 1;
        }
        assert(views(refs@) =~= self@.parameters);
        refs
    }

    /// Each menu with its group.
    fn places(&self) -> (r: Vec<(&MenuGroup, &Menu)>)
        ensures
            views(r@) == all_menus(self@.menus),
    {
        let mut places: Vec<(&MenuGroup, &Menu)> = Vec::new();
        let mut i: usize = 0;
        let ghost groups = self@.menus;
        assert(views(places@) =~= all_menus(groups.take(0)));
        while i < self.menus.len()
            invariant
                i <= self.menus@.len(),
                groups == self@.menus,
                views(places@) == all_menus(groups.take(i as int)),
            decreases self.menus@.len() - i,
        {
            let group = &self.menus[i];
            let ghost before = views(places@);
            let ghost own = group@.menus.map_values(|menu: MenuView| (group@, menu));
            let mut j: usize = 0;
            assert(before =~= before + own.take(0));
            while j < group.menus.len()
                invariant
                    j <= group.menus@.len(),
                    own == group@.menus.map_values(|menu: MenuView| (group@, menu)),
                    views(places@) == before + own.take(j as int),
                decreases group.menus@.len() - j,
            {
                let ghost earlier = places@;
                places.push((group, &group.menus[j]));
                proof {
                    assert(own[j as int] == (group@, group.menus@[j as int]@));
                    assert(views(places@) =~= views(earlier).push(own[j as int]));
                    assert(own.take(j + 1) =~= own.take(j as int).push(own[j as int]));
                    assert(views(places@) =~= before + own.take(j + 1));
                }
                j += 1;
            }
            proof {
                assert(own.take(j as int) =~= own);
                assert(groups.take(i + 1).drop_last() =~= groups.take(i as int));
                assert(groups.take(i + 1).last() == group@);
            }
            i += 1;
        }
        assert(groups.take(i as int) =~= groups);
        places
    }

    /// The menus with the name, in the group with the name where one is given.
    fn places_named(&self, group_name: Option<&str>, menu_name: &str) -> (r: Vec<
        (&MenuGroup, &Menu),
    >)
        ensures
            views(r@) == all_menus(self@.menus).filter(
                menu_named(option_view(group_name), menu_name@),
            ),
    {
        let places = self.places();
        let mut matches: Vec<(&MenuGroup, &Menu)> = Vec::new();
        let mut i: usize = 0;
        let ghost all = views(places@);
        let ghost keep = menu_named(option_view(group_name), menu_name@);
        proof {
            assert(views(matches@) =~= seq![]);
            lemma_filter_none(all.take(0), keep);
        }
        while i < places.len()
            invariant
                i <= places@.len(),
                all == views(places@),
                keep == menu_named(option_view(group_name), menu_name@),
                views(matches@) == all.take(i as int).filter(keep),
            decreases places@.len() - i,
        {
            proof {
                lemma_filter_next(all, i as int, keep);
            }
            let (group, menu) = places[i];
            let in_group = match group_name {
                Some(name) => same_fold(&group.name, name),
                None => true,
            };
            if in_group && same_fold(&menu.name, menu_name) {
                let ghost before = matches@;
                matches.push((group, menu));
                assert(views(matches@) =~= views(before).push(all[i as int]));
            }
            i += 1;
        }
        assert(all.take(i as int) =~= all);
        matches
    }

    fn menu_name_is_ambiguous(&self, menu_name: &str) -> (r: bool)
        ensures
            r == menu_ambiguous(self@, menu_name@),
    {
        self.places_named(None, menu_name).len() > 1
    }

    fn path(&self, group: &MenuGroup, menu: &Menu) -> (r: MenuPath)
        ensures
            r@ == path_of(self@, (group@, menu@)),
    {
        MenuPath {
            group: group.name.clone(),
            menu: menu.name.clone(),
            group_required: self.menu_name_is_ambiguous(&menu.name),
        }
    }

    /// The paths of the menus that show a parameter.
    pub fn menu_paths(&self, parameter: &Parameter) -> (r: Vec<MenuPath>)
        ensures
            views(r@) == paths_of(self@, parameter@),
    {
        let places = self.places();
        let mut paths: Vec<MenuPath> = Vec::new();
        let mut i: usize = 0;
        let ghost all = views(places@);
        assert(all.take(0) =~= seq![]);
        assert(views(paths@) =~= seq![]);
        while i < places.len()
            invariant
                i <= places@.len(),
                all == views(places@),
                views(paths@) == paths_among(self@, all.take(i as int), parameter@.oid),
            decreases places@.len() - i,
        {
            let (group, menu) = places[i];
            proof {
                assert(all.take(i + 1).drop_last() =~= all.take(i as int));
                assert(all.take(i + 1).last() == all[i as int]);
                assert(all[i as int] == (group@, menu@));
                assert(menu@.members.take(menu.members@.len() as int) =~= menu@.members);
            }
            if contains_oid(&menu.members, menu.members.len(), &parameter.oid) {
                let path = self.path(group, menu);
                if !includes_path(&paths, &path) {
                    let ghost before = paths@;
                    let ghost view = path@;
                    paths.push(path);
                    assert(views(paths@) =~= views(before).push(view));
                }
            }
            i += 1;
        }
        assert(all.take(i as int) =~= all);
        paths
    }

    fn candidates(&self, matches: &Vec<&Parameter>) -> (r: Vec<ParameterCandidate>)
        ensures
            views(r@) == candidates_of(self@, views(matches@)),
    {
        let mut candidates: Vec<ParameterCandidate> = Vec::new();
        let mut i: usize = 0;
        while i < matches.len()
            invariant
                i <= matches@.len(),
                candidates@.len() == i,
                forall|k: int|
                    0 <= k < i ==> #[trigger] views(candidates@)[k] == candidates_of(
                        self@,
                        views(matches@),
                    )[k],
            decreases matches@.len() - i,
        {
            let candidate = ParameterCandidate {
                parameter: matches[i].identity(),
                menus: self.menu_paths(matches[i]),
            };
            let ghost before = candidates@;
            let ghost view = candidate@;
            candidates.push(candidate);
            assert(views(candidates@) =~= views(before).push(view));
            i += 1;
        }
        assert(views(candidates@) =~= candidates_of(self@, views(matches@)));
        candidates
    }

    /// The parameter that a selector means.
    pub fn resolve(&self, selector: &ParameterSelector) -> (r: Result<&Parameter, ResolveError>)
        ensures
            result_view(r) == resolved_parameter(self@, selector@),
    {
        let parameters = self.parameter_refs();
        match selector {
            ParameterSelector::Oid(oid) => match find_oid(&parameters, oid) {
                Some(parameter) => Ok(parameter),
                None => Err(ResolveError::NotFound(selector.to_string())),
            },
            ParameterSelector::DisplayName(name) => {
                let matches = find_named(&parameters, name);
                self.only_match(matches, name)
            },
            ParameterSelector::Auto(text) => {
                let matches = find_meant(&parameters, text);
                self.only_match(matches, text)
            },
        }
    }

    fn only_match<'a>(&'a self, matches: Vec<&'a Parameter>, name: &str) -> (r: Result<
        &'a Parameter,
        ResolveError,
    >)
        ensures
            result_view(r) == only(
                views(matches@),
                ResolveErrorView::NotFound(name@),
                name@,
                candidates_of(self@, views(matches@)),
            ),
    {
        if matches.len() == 0 {
            Err(ResolveError::NotFound(name.to_owned()))
        } else if matches.len() == 1 {
            Ok(matches[0])
        } else {
            Err(
                ResolveError::AmbiguousDisplayName {
                    name: name.to_owned(),
                    candidates: self.candidates(&matches),
                },
            )
        }
    }
}

/// Whether a group has the name, in whatever case.
pub open spec fn group_named(name: Seq<char>) -> spec_fn(MenuGroupView) -> bool {
    |group: MenuGroupView| fold(group.name) == fold(name)
}

/// Whether one of the groups has the index.
pub open spec fn has_index(groups: Seq<MenuGroupView>, index: u8) -> bool {
    exists|i: int| 0 <= i < groups.len() && (#[trigger] groups[i]).index == index
}

/// The reason why menus are not known, where discovery gave none.
pub open spec fn reason_or(error: Option<Seq<char>>, otherwise: Seq<char>) -> Seq<char> {
    match error {
        Some(error) => error,
        None => otherwise,
    }
}

/// What stops a search for a menu: a group that is not known fully. One that has no name may be
/// the one that is meant; one that has a name stops only searches that may look into it.
pub open spec fn scope_error(catalog: CatalogView, group_name: Option<Seq<char>>) -> Option<
    ResolveErrorView,
> {
    let incomplete = catalog.incomplete_menu_groups;
    let error = catalog.menu_discovery_error;
    if incomplete.len() == 0 {
        None
    } else if exists|i: int|
        0 <= i < incomplete.len() && !has_index(catalog.menus, #[trigger] incomplete[i]) {
        Some(
            ResolveErrorView::MenusUnavailable(
                reason_or(error, "a menu group name is unavailable"@),
            ),
        )
    } else {
        match group_name {
            Some(name) => {
                let groups = catalog.menus.filter(group_named(name));
                if groups.len() == 1 && !incomplete.contains(groups[0].index) {
                    None
                } else {
                    Some(
                        ResolveErrorView::MenusUnavailable(
                            reason_or(error, "menu discovery is incomplete"@),
                        ),
                    )
                }
            },
            None => Some(
                ResolveErrorView::MenusUnavailable(
                    reason_or(error, "menu discovery is incomplete"@),
                ),
            ),
        }
    }
}

/// Which group is meant.
pub open spec fn group_identity_of(group: MenuGroupView) -> GroupIdentityView {
    GroupIdentityView { group: group.name, group_index: group.index }
}

/// What stops a search in a group: another group with its name.
pub open spec fn group_error(catalog: CatalogView, group_name: Option<Seq<char>>) -> Option<
    ResolveErrorView,
> {
    match group_name {
        None => None,
        Some(name) => {
            let groups = catalog.menus.filter(group_named(name));
            if groups.len() > 1 {
                Some(
                    ResolveErrorView::AmbiguousGroup {
                        group: name,
                        candidates: groups.map_values(
                            |group: MenuGroupView| group_identity_of(group),
                        ),
                    },
                )
            } else {
                None
            }
        },
    }
}

/// Which menu is meant.
pub open spec fn menu_identity_of(place: (MenuGroupView, MenuView)) -> MenuIdentityView {
    MenuIdentityView {
        group: place.0.name,
        menu: place.1.name,
        group_index: place.0.index,
        menu_index: place.1.index,
    }
}

/// The one menu with the name, in the group with the name where one is given.
pub open spec fn resolved_menu(
    catalog: CatalogView,
    group_name: Option<Seq<char>>,
    menu_name: Seq<char>,
) -> Result<(MenuGroupView, MenuView), ResolveErrorView> {
    let matches = all_menus(catalog.menus).filter(menu_named(group_name, menu_name));
    match scope_error(catalog, group_name) {
        Some(error) => Err(error),
        None => match group_error(catalog, group_name) {
            Some(error) => Err(error),
            None => if matches.len() == 0 {
                Err(
                    match catalog.menu_discovery_error {
                        Some(error) => ResolveErrorView::MenusUnavailable(error),
                        None => ResolveErrorView::MenuNotFound {
                            group: group_name,
                            menu: menu_name,
                        },
                    },
                )
            } else if matches.len() == 1 {
                Ok(matches[0])
            } else {
                Err(
                    ResolveErrorView::AmbiguousMenu {
                        menu: menu_name,
                        candidates: matches.map_values(
                            |place: (MenuGroupView, MenuView)| menu_identity_of(place),
                        ),
                    },
                )
            },
        },
    }
}

/// The parameters with the OIDs, each once, in the order of the OIDs. An OID that no parameter has
/// is passed over.
pub open spec fn members_among(parameters: Seq<ParameterView>, oids: Seq<OidView>) -> Seq<
    ParameterView,
>
    decreases oids.len(),
{
    if oids.len() == 0 {
        seq![]
    } else {
        let before = members_among(parameters, oids.drop_last());
        if oids.drop_last().contains(oids.last()) {
            before
        } else {
            match with_oid(parameters, oids.last()) {
                Some(parameter) => before.push(parameter),
                None => before,
            }
        }
    }
}

/// Each parameter with the one path.
pub open spec fn candidates_at(matches: Seq<ParameterView>, path: MenuPathView) -> Seq<
    CandidateView,
> {
    matches.map_values(
        |parameter: ParameterView|
            CandidateView { parameter: identity_of(parameter), menus: seq![path] },
    )
}

/// The parameter of a menu that a selector means.
pub open spec fn resolved_member(
    catalog: CatalogView,
    place: (MenuGroupView, MenuView),
    selector: SelectorView,
) -> Result<ParameterView, ResolveErrorView> {
    let members = members_among(catalog.parameters, place.1.members);
    let path = path_of(catalog, place);
    let missing = ResolveErrorView::ParameterNotFoundInMenu {
        menu: place.1.name,
        selector: match selector {
            SelectorView::Oid(_) => selector_text(selector),
            SelectorView::DisplayName(name) => name,
            SelectorView::Auto(text) => text,
        },
    };
    match selector {
        SelectorView::Oid(oid) => match with_oid(members, oid) {
            Some(parameter) => Ok(parameter),
            None => Err(missing),
        },
        SelectorView::DisplayName(name) => {
            let matches = members.filter(named(name));
            only(matches, missing, name, candidates_at(matches, path))
        },
        SelectorView::Auto(text) => {
            let matches = meant_by(members, text);
            only(matches, missing, text, candidates_at(matches, path))
        },
    }
}

/// The parameter that a selector means in the menu with the name.
pub open spec fn resolved_in_menu(
    catalog: CatalogView,
    group_name: Option<Seq<char>>,
    menu_name: Seq<char>,
    selector: SelectorView,
) -> Result<ParameterView, ResolveErrorView> {
    match resolved_menu(catalog, group_name, menu_name) {
        Ok(place) => resolved_member(catalog, place, selector),
        Err(error) => Err(error),
    }
}

impl DeviceCatalog {
    /// The parameters that a menu shows.
    pub fn parameters_in_menu(&self, menu: &Menu) -> (r: Vec<&Parameter>)
        ensures
            views(r@) == members_among(self@.parameters, menu@.members),
    {
        let parameters = self.parameter_refs();
        let mut members: Vec<&Parameter> = Vec::new();
        let mut i: usize = 0;
        let ghost all = menu@.members;
        assert(all.take(0) =~= seq![]);
        assert(views(members@) =~= seq![]);
        while i < menu.members.len()
            invariant
                i <= menu.members@.len(),
                all == menu@.members,
                views(parameters@) == self@.parameters,
                views(members@) == members_among(self@.parameters, all.take(i as int)),
            decreases menu.members@.len() - i,
        {
            assert(all.take(i + 1).drop_last() =~= all.take(i as int));
            assert(all.take(i + 1).last() == all[i as int]);
            if !contains_oid(&menu.members, i, &menu.members[i]) {
                if let Some(parameter) = find_oid(&parameters, &menu.members[i]) {
                    let ghost before = members@;
                    members.push(parameter);
                    assert(views(members@) =~= views(before).push(parameter@));
                }
            }
            i += 1;
        }
        assert(all.take(i as int) =~= all);
        members
    }

    fn reason(&self, otherwise: &str) -> (r: ResolveError)
        ensures
            r@ == ResolveErrorView::MenusUnavailable(
                reason_or(self@.menu_discovery_error, otherwise@),
            ),
    {
        ResolveError::MenusUnavailable(
            match &self.menu_discovery_error {
                Some(error) => error.clone(),
                None => otherwise.to_owned(),
            },
        )
    }

    /// The groups with the name.
    fn groups_named(&self, name: &str) -> (r: Vec<&MenuGroup>)
        ensures
            views(r@) == self@.menus.filter(group_named(name@)),
    {
        let mut matches: Vec<&MenuGroup> = Vec::new();
        let mut i: usize = 0;
        let ghost all = self@.menus;
        proof {
            assert(views(matches@) =~= seq![]);
            lemma_filter_none(all.take(0), group_named(name@));
        }
        while i < self.menus.len()
            invariant
                i <= self.menus@.len(),
                all == self@.menus,
                views(matches@) == all.take(i as int).filter(group_named(name@)),
            decreases self.menus@.len() - i,
        {
            proof {
                lemma_filter_next(all, i as int, group_named(name@));
            }
            if same_fold(&self.menus[i].name, name) {
                let ghost before = matches@;
                matches.push(&self.menus[i]);
                assert(views(matches@) =~= views(before).push(all[i as int]));
            }
            i += 1;
        }
        assert(all.take(i as int) =~= all);
        matches
    }

    fn has_group(&self, index: u8) -> (r: bool)
        ensures
            r == has_index(self@.menus, index),
    {
        let mut i: usize = 0;
        while i < self.menus.len()
            invariant
                i <= self.menus@.len(),
                forall|k: int| 0 <= k < i ==> (#[trigger] self@.menus[k]).index != index,
            decreases self.menus@.len() - i,
        {
            if self.menus[i].index == index {
                assert(self@.menus[i as int].index == index);
                return true;
            }
            i += 1;
        }
        false
    }

    fn ensure_menu_scope_complete(&self, group_name: Option<&str>) -> (r: Result<(), ResolveError>)
        ensures
            result_view(r) == (match scope_error(self@, option_view(group_name)) {
                Some(error) => Err(error),
                None => Ok(()),
            }),
    {
        if self.incomplete_menu_groups.len() == 0 {
            return Ok(());
        }
        let ghost incomplete = self@.incomplete_menu_groups;
        let mut i: usize = 0;
        while i < self.incomplete_menu_groups.len()
            invariant
                i <= self.incomplete_menu_groups@.len(),
                incomplete == self@.incomplete_menu_groups,
                incomplete.len() > 0,
                forall|k: int| 0 <= k < i ==> has_index(self@.menus, #[trigger] incomplete[k]),
            decreases self.incomplete_menu_groups@.len() - i,
        {
            if !self.has_group(self.incomplete_menu_groups[i]) {
                assert(!has_index(self@.menus, incomplete[i as int]));
                return Err(self.reason("a menu group name is unavailable"));
            }
            i += 1;
        }
        if let Some(name) = group_name {
            let groups = self.groups_named(name);
            if groups.len() == 1 {
                assert(views(groups@)[0].index == groups@[0].index);
                if !contains_byte(&self.incomplete_menu_groups, groups[0].index) {
                    return Ok(());
                }
            }
        }
        Err(self.reason("menu discovery is incomplete"))
    }

    fn ensure_group_name_unique(&self, group_name: Option<&str>) -> (r: Result<(), ResolveError>)
        ensures
            result_view(r) == (match group_error(self@, option_view(group_name)) {
                Some(error) => Err(error),
                None => Ok(()),
            }),
    {
        let name = match group_name {
            Some(name) => name,
            None => return Ok(()),
        };
        let groups = self.groups_named(name);
        if groups.len() <= 1 {
            return Ok(());
        }
        let mut candidates: Vec<MenuGroupIdentity> = Vec::new();
        let mut i: usize = 0;
        let ghost all = views(groups@).map_values(|group: MenuGroupView| group_identity_of(group));
        while i < groups.len()
            invariant
                i <= groups@.len(),
                all == views(groups@).map_values(|group: MenuGroupView| group_identity_of(group)),
                views(candidates@) =~= all.take(i as int),
            decreases groups@.len() - i,
        {
            let candidate = MenuGroupIdentity {
                group: groups[i].name.clone(),
                group_index: groups[i].index,
            };
            let ghost before = candidates@;
            let ghost view = candidate@;
            candidates.push(candidate);
            assert(views(candidates@) =~= views(before).push(view));
            assert(view == all[i as int]);
            i += 1;
        }
        assert(views(candidates@) =~= all);
        Err(ResolveError::AmbiguousGroup { group: name.to_owned(), candidates })
    }

    fn missing_menu_error(&self, group_name: Option<&str>, menu_name: &str) -> (r: ResolveError)
        ensures
            r@ == (match self@.menu_discovery_error {
                Some(error) => ResolveErrorView::MenusUnavailable(error),
                None => ResolveErrorView::MenuNotFound {
                    group: option_view(group_name),
                    menu: menu_name@,
                },
            }),
    {
        match &self.menu_discovery_error {
            Some(error) => ResolveError::MenusUnavailable(error.clone()),
            None => ResolveError::MenuNotFound {
                group: match group_name {
                    Some(name) => Some(name.to_owned()),
                    None => None,
                },
                menu: menu_name.to_owned(),
            },
        }
    }

    /// The one menu with the name, in the group with the name where one is given.
    pub fn resolve_menu(&self, group_name: Option<&str>, menu_name: &str) -> (r: Result<
        (&MenuGroup, &Menu),
        ResolveError,
    >)
        ensures
            result_view(r) == resolved_menu(self@, option_view(group_name), menu_name@),
    {
        if let Err(error) = self.ensure_menu_scope_complete(group_name) {
            return Err(error);
        }
        if let Err(error) = self.ensure_group_name_unique(group_name) {
            return Err(error);
        }
        let matches = self.places_named(group_name, menu_name);
        if matches.len() == 0 {
            return Err(self.missing_menu_error(group_name, menu_name));
        }
        if matches.len() == 1 {
            assert(views(matches@)[0] == matches@[0]@);
            return Ok(matches[0]);
        }
        let mut candidates: Vec<MenuIdentity> = Vec::new();
        let mut i: usize = 0;
        let ghost all = views(matches@).map_values(
            |place: (MenuGroupView, MenuView)| menu_identity_of(place),
        );
        while i < matches.len()
            invariant
                i <= matches@.len(),
                all == views(matches@).map_values(
                    |place: (MenuGroupView, MenuView)| menu_identity_of(place),
                ),
                views(candidates@) =~= all.take(i as int),
            decreases matches@.len() - i,
        {
            let (group, menu) = matches[i];
            let candidate = MenuIdentity {
                group: group.name.clone(),
                menu: menu.name.clone(),
                group_index: group.index,
                menu_index: menu.index,
            };
            let ghost before = candidates@;
            let ghost view = candidate@;
            candidates.push(candidate);
            assert(views(candidates@) =~= views(before).push(view));
            assert(views(matches@)[i as int] == (group@, menu@));
            assert(view == all[i as int]);
            i += 1;
        }
        assert(views(candidates@) =~= all);
        Err(ResolveError::AmbiguousMenu { menu: menu_name.to_owned(), candidates })
    }

    /// The parameter of a menu that a selector means.
    pub fn resolve_in_menu(
        &self,
        group_name: Option<&str>,
        menu_name: &str,
        selector: &ParameterSelector,
    ) -> (r: Result<&Parameter, ResolveError>)
        ensures
            result_view(r) == resolved_in_menu(
                self@,
                option_view(group_name),
                menu_name@,
                selector@,
            ),
    {
        match self.resolve_menu(group_name, menu_name) {
            Ok((group, menu)) => self.resolve_menu_parameter(group, menu, selector),
            Err(error) => Err(error),
        }
    }

    fn resolve_menu_parameter(
        &self,
        group: &MenuGroup,
        menu: &Menu,
        selector: &ParameterSelector,
    ) -> (r: Result<&Parameter, ResolveError>)
        ensures
            result_view(r) == resolved_member(self@, (group@, menu@), selector@),
    {
        let members = self.parameters_in_menu(menu);
        match selector {
            ParameterSelector::Oid(oid) => match find_oid(&members, oid) {
                Some(parameter) => Ok(parameter),
                None => Err(
                    ResolveError::ParameterNotFoundInMenu {
                        menu: menu.name.clone(),
                        selector: selector.to_string(),
                    },
                ),
            },
            ParameterSelector::DisplayName(name) => {
                let matches = find_named(&members, name);
                self.only_member(group, menu, matches, name)
            },
            ParameterSelector::Auto(text) => {
                let matches = find_meant(&members, text);
                self.only_member(group, menu, matches, text)
            },
        }
    }

    fn only_member<'a>(
        &'a self,
        group: &MenuGroup,
        menu: &Menu,
        matches: Vec<&'a Parameter>,
        name: &str,
    ) -> (r: Result<&'a Parameter, ResolveError>)
        ensures
            result_view(r) == only(
                views(matches@),
                ResolveErrorView::ParameterNotFoundInMenu { menu: menu@.name, selector: name@ },
                name@,
                candidates_at(views(matches@), path_of(self@, (group@, menu@))),
            ),
    {
        if matches.len() == 0 {
            return Err(
                ResolveError::ParameterNotFoundInMenu {
                    menu: menu.name.clone(),
                    selector: name.to_owned(),
                },
            );
        }
        if matches.len() == 1 {
            return Ok(matches[0]);
        }
        let mut candidates: Vec<ParameterCandidate> = Vec::new();
        let mut i: usize = 0;
        let ghost all = candidates_at(views(matches@), path_of(self@, (group@, menu@)));
        while i < matches.len()
            invariant
                i <= matches@.len(),
                all == candidates_at(views(matches@), path_of(self@, (group@, menu@))),
                views(candidates@) =~= all.take(i as int),
            decreases matches@.len() - i,
        {
            let mut menus: Vec<MenuPath> = Vec::new();
            menus.push(self.path(group, menu));
            assert(views(menus@) =~= seq![path_of(self@, (group@, menu@))]);
            let candidate = ParameterCandidate { parameter: matches[i].identity(), menus };
            let ghost before = candidates@;
            let ghost view = candidate@;
            candidates.push(candidate);
            assert(views(candidates@) =~= views(before).push(view));
            assert(view == all[i as int]);
            i += 1;
        }
        assert(views(candidates@) =~= all);
        Err(ResolveError::AmbiguousDisplayName { name: name.to_owned(), candidates })
    }
}

} // verus!
