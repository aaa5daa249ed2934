//! How parameters and menus with one name are told apart.

use super::error::{
    advice_of, connection_guidance, name_text, resolution_error, resolution_of, visible_name,
    CliError, CliErrorView,
};
use crate::catalog::{
    CandidateView, GroupIdentityView, MenuIdentityView, MenuPath, MenuPathView, ParameterCandidate,
    ResolveError, ResolveErrorView,
};
use crate::csv_output::{join_paths, path_texts};
use crate::model::oid_text;
use crate::text::{concat, debug_text, decimal, fold, join, joined, quoted, same_fold, with_number};
use crate::views::views;
use vstd::prelude::*;
use vstd::string::*;

verus! {

/// Whether two paths are asked for in the same words: the same menu, in whatever case, and the
/// same group where both need it.
pub open spec fn same_words(left: MenuPathView, right: MenuPathView) -> bool {
    &&& fold(left.menu) == fold(right.menu)
    &&& left.group_required == right.group_required
    &&& left.group_required ==> fold(left.group) == fold(right.group)
}

fn is_same_words(left: &MenuPath, right: &MenuPath) -> (r: bool)
    ensures
        r == same_words(left@, right@),
{
    same_fold(&left.menu, &right.menu) && left.group_required == right.group_required && (
    !left.group_required || same_fold(&left.group, &right.group))
}

/// Whether one of the paths is asked for in the same words.
pub open spec fn among(paths: Seq<MenuPathView>, path: MenuPathView) -> bool {
    exists|i: int| 0 <= i < paths.len() && same_words(#[trigger] paths[i], path)
}

/// How many of the candidates have the path.
pub open spec fn owners(candidates: Seq<CandidateView>, path: MenuPathView) -> nat
    decreases candidates.len(),
{
    if candidates.len() == 0 {
        0
    } else {
        owners(candidates.drop_last(), path) + if among(candidates.last().menus, path) {
            1nat
        } else {
            0nat
        }
    }
}

/// The paths that only one of the candidates has, each once.
pub open spec fn unique_paths(candidates: Seq<CandidateView>, paths: Seq<MenuPathView>) -> Seq<
    MenuPathView,
>
    decreases paths.len(),
{
    if paths.len() == 0 {
        seq![]
    } else {
        let before = unique_paths(candidates, paths.drop_last());
        if owners(candidates, paths.last()) == 1 && !among(before, paths.last()) {
            before.push(paths.last())
        } else {
            before
        }
    }
}

fn is_among(paths: &Vec<MenuPath>, path: &MenuPath) -> (r: bool)
    ensures
        r == among(views(paths@), path@),
{
    let mut i: usize = 0;
    while i < paths.len()
        invariant
            i <= paths@.len(),
            forall|k: int| 0 <= k < i ==> !same_words(#[trigger] views(paths@)[k], path@),
        decreases paths@.len() - i,
    {
        if is_same_words(&paths[i], path) {
            assert(same_words(views(paths@)[i as int], path@));
            return true;
        }
        i += 1;
    }
    false
}

fn count_owners(candidates: &[ParameterCandidate], path: &MenuPath) -> (r: usize)
    ensures
        r == owners(views(candidates@), path@),
{
    let mut count: usize = 0;
    let mut i: usize = 0;
    let ghost all = views(candidates@);
    while i < candidates.len()
        invariant
            count <= i <= candidates@.len(),
            all == views(candidates@),
            count == owners(all.take(i as int), path@),
        decreases candidates@.len() - i,
    {
        assert(all.take(i + 1).drop_last() =~= all.take(i as int));
        assert(all.take(i + 1).last() == candidates@[i as int]@);
        if is_among(&candidates[i].menus, path) {
            count += 1;
        }
        i += 1;
    }
    assert(all.take(i as int) =~= all);
    count
}

fn clone_path(path: &MenuPath) -> (r: MenuPath)
    ensures
        r@ == path@,
{
    MenuPath {
        group: path.group.clone(),
        menu: path.menu.clone(),
        group_required: path.group_required,
    }
}

fn find_unique(candidates: &[ParameterCandidate], paths: &Vec<MenuPath>) -> (r: Vec<MenuPath>)
    ensures
        views(r@) == unique_paths(views(candidates@), views(paths@)),
{
    let mut r: Vec<MenuPath> = Vec::new();
    let mut i: usize = 0;
    let ghost all = views(paths@);
    let ghost others = views(candidates@);
    assert(all.take(0) =~= seq![]);
    assert(views(r@) =~= seq![]);
    while i < paths.len()
        invariant
            i <= paths@.len(),
            all == views(paths@),
            others == views(candidates@),
            views(r@) == unique_paths(others, all.take(i as int)),
        decreases paths@.len() - i,
    {
        assert(all.take(i + 1).drop_last() =~= all.take(i as int));
        assert(all.take(i + 1).last() == paths@[i as int]@);
        if count_owners(candidates, &paths[i]) == 1 && !is_among(&r, &paths[i]) {
            let path = clone_path(&paths[i]);
            let ghost before = r@;
            let ghost view = path@;
            r.push(path);
            assert(views(r@) =~= views(before).push(view));
        }
        i += 1;
    }
    assert(all.take(i as int) =~= all);
    r
}

/// A candidate with its OID, its name and its menus.
pub open spec fn oid_line(candidate: CandidateView) -> Seq<char> {
    let menus = joined(path_texts(candidate.menus), ", "@);
    "  oid:"@ + oid_text(candidate.parameter.oid) + "  "@ + name_text(
        candidate.parameter.display_name,
    ) + "  ["@ + (if menus.len() == 0 {
        "-"@
    } else {
        menus
    }) + "]"@
}

/// The words that select a candidate by one of its paths.
pub open spec fn path_line(candidate: CandidateView, path: MenuPathView) -> Seq<char> {
    "  --menu "@ + debug_text(path.menu) + (if path.group_required {
        " --group "@ + debug_text(path.group)
    } else {
        ""@
    }) + "  (oid:"@ + oid_text(candidate.parameter.oid) + ")"@
}

/// The words that select a candidate: by each path that is its own, or by its OID where none is.
pub open spec fn candidate_lines(candidates: Seq<CandidateView>, candidate: CandidateView) -> Seq<
    Seq<char>,
> {
    let paths = unique_paths(candidates, candidate.menus);
    if paths.len() == 0 {
        seq![
            "  oid:"@ + oid_text(candidate.parameter.oid) + "  ("@ + name_text(
                candidate.parameter.display_name,
            ) + ")"@,
        ]
    } else {
        paths.map_values(|path: MenuPathView| path_line(candidate, path))
    }
}

/// The lines of the first `count` candidates.
pub open spec fn all_candidate_lines(candidates: Seq<CandidateView>, count: nat) -> Seq<Seq<char>>
    decreases count,
{
    if count == 0 {
        seq![]
    } else {
        all_candidate_lines(candidates, (count - 1) as nat) + candidate_lines(
            candidates,
            candidates[count - 1],
        )
    }
}

/// Whether one of the candidates has a path that is its own.
pub open spec fn any_unique(candidates: Seq<CandidateView>) -> bool {
    exists|i: int|
        0 <= i < candidates.len() && unique_paths(candidates, (#[trigger] candidates[i]).menus).len()
            > 0
}

/// How to select one of the candidates: by a menu that tells it apart, or by its OID.
pub open spec fn candidates_text(candidates: Seq<CandidateView>) -> Seq<char> {
    if any_unique(candidates) {
        joined(
            seq!["Disambiguate with a unique menu qualifier or OID:"@] + all_candidate_lines(
                candidates,
                candidates.len(),
            ) + seq!["Or select directly with oid:<OID>."@],
            "\n"@,
        )
    } else {
        joined(
            seq!["No unique menu qualifier identifies these parameters; select one by OID:"@]
                + candidates.map_values(|candidate: CandidateView| oid_line(candidate)),
            "\n"@,
        )
    }
}

fn oid_line_text(candidate: &ParameterCandidate) -> (r: String)
    ensures
        r@ == oid_line(candidate@),
{
    let menus = join_paths(&candidate.menus, ", ");
    let mut line = concat("  oid:", &candidate.parameter.oid.to_string());
    line.append("  ");
    line.append(visible_name(&candidate.parameter.display_name));
    line.append("  [");
    if menus.as_str().unicode_len() == 0 {
        line.append("-");
    } else {
        line.append(&menus);
    }
    line.append("]");
    line
}

fn path_line_text(candidate: &ParameterCandidate, path: &MenuPath) -> (r: String)
    ensures
        r@ == path_line(candidate@, path@),
{
    let mut line = concat("  --menu ", &quoted(&path.menu));
    if path.group_required {
        line.append(&concat(" --group ", &quoted(&path.group)));
    } else {
        line.append("");
    }
    line.append("  (oid:");
    line.append(&candidate.parameter.oid.to_string());
    line.append(")");
    line
}

fn push_candidate_lines(
    lines: Vec<String>,
    candidates: &[ParameterCandidate],
    candidate: &ParameterCandidate,
) -> (r: Vec<String>)
    ensures
        views(r@) == views(lines@) + candidate_lines(views(candidates@), candidate@),
{
    let mut r = lines;
    let paths = find_unique(candidates, &candidate.menus);
    let ghost start = views(r@);
    let ghost more = candidate_lines(views(candidates@), candidate@);
    if paths.len() == 0 {
        let mut line = concat("  oid:", &candidate.parameter.oid.to_string());
        line.append("  (");
        line.append(visible_name(&candidate.parameter.display_name));
        line.append(")");
        let ghost before = r@;
        let ghost view = line@;
        r.push(line);
        assert(views(r@) =~= views(before).push(view));
        assert(views(r@) =~= start + more);
        return r;
    }
    let mut i: usize = 0;
    assert(start =~= start + more.take(0));
    while i < paths.len()
        invariant
            i <= paths@.len(),
            more == views(paths@).map_values(|path: MenuPathView| path_line(candidate@, path)),
            views(r@) =~= start + more.take(i as int),
        decreases paths@.len() - i,
    {
        let line = path_line_text(candidate, &paths[i]);
        assert(line@ == more[i as int]);
        let ghost before = r@;
        let ghost view = line@;
        r.push(line);
        assert(views(r@) =~= views(before).push(view));
        i += 1;
    }
    assert(more.take(i as int) =~= more);
    r
}

/// How to select one of the candidates.
pub fn ambiguous_parameter_guidance(candidates: &[ParameterCandidate]) -> (r: String)
    ensures
        r@ == candidates_text(views(candidates@)),
{
    let ghost all = views(candidates@);
    let mut i: usize = 0;
    let mut unique = false;
    while i < candidates.len() && !unique
        invariant
            i <= candidates@.len(),
            all == views(candidates@),
            !unique ==> forall|k: int|
                0 <= k < i ==> unique_paths(all, (#[trigger] all[k]).menus).len() == 0,
            unique ==> any_unique(all),
        decreases candidates@.len() - i + if unique {
            0int
        } else {
            1int
        },
    {
        let paths = find_unique(candidates, &candidates[i].menus);
        assert(all[i as int].menus == views(candidates@[i as int].menus@));
        if paths.len() > 0 {
            assert(unique_paths(all, all[i as int].menus).len() > 0);
            unique = true;
        } else {
            i += 1;
        }
    }
    let mut lines: Vec<String> = Vec::new();
    if !unique {
        lines.push(
            "No unique menu qualifier identifies these parameters; select one by OID:".to_owned(),
        );
        let ghost start = views(lines@);
        let ghost more = all.map_values(|candidate: CandidateView| oid_line(candidate));
        assert(start =~= seq![
            "No unique menu qualifier identifies these parameters; select one by OID:"@,
        ]);
        assert(start =~= start + more.take(0));
        let mut j: usize = 0;
        while j < candidates.len()
            invariant
                j <= candidates@.len(),
                all == views(candidates@),
                more == all.map_values(|candidate: CandidateView| oid_line(candidate)),
                views(lines@) =~= start + more.take(j as int),
            decreases candidates@.len() - j,
        {
            let line = oid_line_text(&candidates[j]);
            assert(line@ == more[j as int]);
            let ghost before = lines@;
            let ghost view = line@;
            lines.push(line);
            assert(views(lines@) =~= views(before).push(view));
            j += 1;
        }
        assert(more.take(j as int) =~= more);
        return join(&lines, "\n");
    }
    lines.push("Disambiguate with a unique menu qualifier or OID:".to_owned());
    let ghost start = views(lines@);
    assert(start =~= seq!["Disambiguate with a unique menu qualifier or OID:"@]);
    assert(start =~= start + all_candidate_lines(all, 0));
    let mut j: usize = 0;
    while j < candidates.len()
        invariant
            j <= candidates@.len(),
            all == views(candidates@),
            views(lines@) == start + all_candidate_lines(all, j as nat),
        decreases candidates@.len() - j,
    {
        lines = push_candidate_lines(lines, candidates, &candidates[j]);
        assert(views(lines@) =~= start + all_candidate_lines(all, (j + 1) as nat));
        j += 1;
    }
    let ghost before = lines@;
    lines.push("Or select directly with oid:<OID>.".to_owned());
    proof {
        let last = "Or select directly with oid:<OID>."@;
        assert(views(lines@) =~= views(before).push(last));
        assert(views(lines@) =~= start + all_candidate_lines(all, all.len()) + seq![last]);
    }
    join(&lines, "\n")
}

/// A menu that may be meant.
pub open spec fn menu_line(menu: MenuIdentityView) -> Seq<char> {
    "  "@ + menu.group + " / "@ + menu.menu
}

/// A group that may be meant.
pub open spec fn group_line(group: GroupIdentityView) -> Seq<char> {
    "  group "@ + decimal(group.group_index as nat) + ": "@ + group.group
}

/// The lines that help with an error.
pub open spec fn guidance_of(error: CliErrorView) -> Seq<Seq<char>> {
    (match advice_of(error) {
        Some(advice) => seq![advice],
        None => seq![],
    }) + (match resolution_of(error) {
        Some(ResolveErrorView::AmbiguousDisplayName { candidates, .. }) => seq![
            candidates_text(candidates),
        ],
        Some(ResolveErrorView::AmbiguousMenu { candidates, .. }) => seq![
            "Select the menu with --group:"@,
        ] + candidates.map_values(|menu: MenuIdentityView| menu_line(menu)),
        Some(ResolveErrorView::AmbiguousGroup { candidates, .. }) => seq![
            "Menu groups differ only by case; select the parameter by OID:"@,
        ] + candidates.map_values(|group: GroupIdentityView| group_line(group)),
        _ => seq![],
    })
}

/// The lines that help with an error.
pub fn error_guidance(error: &CliError) -> (r: Vec<String>)
    ensures
        views(r@) == guidance_of(error@),
{
    let mut lines: Vec<String> = Vec::new();
    if let Some(advice) = connection_guidance(error) {
        lines.push(advice.to_owned());
        assert(views(lines@) =~= seq![advice@]);
    }
    let ghost start = views(lines@);
    assert(start =~= match advice_of(error@) {
        Some(advice) => seq![advice],
        None => seq![],
    });
    match resolution_error(error) {
        Some(ResolveError::AmbiguousDisplayName { candidates, .. }) => {
            let text = ambiguous_parameter_guidance(candidates);
            let ghost before = lines@;
            let ghost view = text@;
            lines.push(text);
            assert(views(lines@) =~= views(before).push(view));
            assert(views(lines@) =~= guidance_of(error@));
            lines
        },
        Some(ResolveError::AmbiguousMenu { candidates, .. }) => {
            let ghost before = lines@;
            lines.push("Select the menu with --group:".to_owned());
            assert(views(lines@) =~= views(before).push("Select the menu with --group:"@));
            let ghost head = views(lines@);
            let ghost more = views(candidates@).map_values(
                |menu: MenuIdentityView| menu_line(menu),
            );
            assert(head =~= head + more.take(0));
            let mut i: usize = 0;
            while i < candidates.len()
                invariant
                    i <= candidates@.len(),
                    more == views(candidates@).map_values(
                        |menu: MenuIdentityView| menu_line(menu),
                    ),
                    views(lines@) =~= head + more.take(i as int),
                decreases candidates@.len() - i,
            {
                let line = concat(
                    &concat(&concat("  ", &candidates[i].group), " / "),
                    &candidates[i].menu,
                );
                assert(line@ == more[i as int]);
                let ghost before = lines@;
                let ghost view = line@;
                lines.push(line);
                assert(views(lines@) =~= views(before).push(view));
                i += 1;
            }
            assert(views(lines@) =~= guidance_of(error@));
            lines
        },
        Some(ResolveError::AmbiguousGroup { candidates, .. }) => {
            let ghost before = lines@;
            lines.push("Menu groups differ only by case; select the parameter by OID:".to_owned());
            assert(views(lines@) =~= views(before).push(
                "Menu groups differ only by case; select the parameter by OID:"@,
            ));
            let ghost head = views(lines@);
            let ghost more = views(candidates@).map_values(
                |group: GroupIdentityView| group_line(group),
            );
            assert(head =~= head + more.take(0));
            let mut i: usize = 0;
            while i < candidates.len()
                invariant
                    i <= candidates@.len(),
                    more == views(candidates@).map_values(
                        |group: GroupIdentityView| group_line(group),
                    ),
                    views(lines@) =~= head + more.take(i as int),
                decreases candidates@.len() - i,
            {
                let line = concat(
                    &with_number("  group ", candidates[i].group_index as u64, ": "),
                    &candidates[i].group,
                );
                assert(line@ == more[i as int]);
                let ghost before = lines@;
                let ghost view = line@;
                lines.push(line);
                assert(views(lines@) =~= views(before).push(view));
                i += 1;
            }
            assert(views(lines@) =~= guidance_of(error@));
            lines
        },
        _ => {
            assert(views(lines@) =~= guidance_of(error@));
            lines
        },
    }
}

proof fn lemma_owner_counts(candidates: Seq<CandidateView>, path: MenuPathView, i: int)
    requires
        0 <= i < candidates.len(),
        among(candidates[i].menus, path),
    ensures
        owners(candidates, path) >= 1,
    decreases candidates.len(),
{
    if i < candidates.len() - 1 {
        lemma_owner_counts(candidates.drop_last(), path, i);
    }
}

proof fn lemma_two_owners_count(candidates: Seq<CandidateView>, path: MenuPathView, i: int, j: int)
    requires
        0 <= i < j < candidates.len(),
        among(candidates[i].menus, path),
        among(candidates[j].menus, path),
    ensures
        owners(candidates, path) >= 2,
    decreases candidates.len(),
{
    if j < candidates.len() - 1 {
        lemma_two_owners_count(candidates.drop_last(), path, i, j);
    } else {
        lemma_owner_counts(candidates.drop_last(), path, i);
    }
}

/// A unique path has one owner, and is one of the paths.
pub proof fn lemma_unique(candidates: Seq<CandidateView>, paths: Seq<MenuPathView>)
    ensures
        forall|k: int|
            0 <= k < unique_paths(candidates, paths).len() ==> owners(
                candidates,
                #[trigger] unique_paths(candidates, paths)[k],
            ) == 1 && paths.contains(unique_paths(candidates, paths)[k]),
    decreases paths.len(),
{
    if paths.len() > 0 {
        let front = paths.drop_last();
        lemma_unique(candidates, front);
        let before = unique_paths(candidates, front);
        let all = unique_paths(candidates, paths);
        assert forall|k: int| 0 <= k < all.len() implies owners(candidates, #[trigger] all[k]) == 1
            && paths.contains(all[k]) by {
            if k < before.len() {
                assert(all[k] == before[k]);
                let m = choose|m: int| 0 <= m < front.len() && front[m] == before[k];
                assert(paths[m] == all[k]);
            } else {
                assert(paths[paths.len() - 1] == all[k]);
            }
        }
    }
}

/// A menu that is advised for a candidate shows that candidate and no other.
pub proof fn law_advised_menu_is_the_candidates_own(
    candidates: Seq<CandidateView>,
    i: int,
    j: int,
    path: MenuPathView,
)
    requires
        0 <= i < candidates.len(),
        0 <= j < candidates.len(),
        i != j,
        unique_paths(candidates, candidates[i].menus).contains(path),
    ensures
        candidates[i].menus.contains(path),
        !among(candidates[j].menus, path),
{
    let paths = unique_paths(candidates, candidates[i].menus);
    lemma_unique(candidates, candidates[i].menus);
    let k = choose|k: int| 0 <= k < paths.len() && paths[k] == path;
    assert(owners(candidates, paths[k]) == 1);
    let menus = candidates[i].menus;
    let m = choose|m: int| 0 <= m < menus.len() && menus[m] == path;
    assert(same_words(menus[m], path));
    if among(candidates[j].menus, path) {
        if i < j {
            lemma_two_owners_count(candidates, path, i, j);
        } else {
            lemma_two_owners_count(candidates, path, j, i);
        }
    }
}

} // verus!
