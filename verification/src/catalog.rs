//! Lookups in the catalog of project descriptions.

use crate::pick::{first, lemma_first_at, lemma_first_none};
use crate::project::{Project, ProjectView};
use crate::report::{valid_projects, valid_projects_text};
use crate::text::{contains, copy, same};
use vstd::prelude::*;

verus! {

/// The first project of `cat` that is called `name`.
pub open spec fn named(cat: Seq<ProjectView>, name: Seq<char>) -> Option<ProjectView> {
    first(cat, |p: ProjectView| p.name == name)
}

/// The projects of `cat` that carry the group tag, in catalog order.
pub open spec fn members(cat: Seq<ProjectView>, tag: Seq<char>) -> Seq<ProjectView> {
    cat.filter(|p: ProjectView| p.in_group(tag))
}

/// The names of the projects of `cat`, in catalog order.
pub open spec fn names(cat: Seq<ProjectView>) -> Seq<Seq<char>> {
    cat.map_values(|p: ProjectView| p.name)
}

/// The group tags of the projects of `cat`, in catalog order, repetitions included.
pub open spec fn group_tags(cat: Seq<ProjectView>) -> Seq<Seq<char>>
    decreases cat.len(),
{
    if cat.len() == 0 {
        Seq::empty()
    } else {
        group_tags(cat.drop_last()) + cat.last().tags()
    }
}

/// Whether no two projects of `cat` share a name.
pub open spec fn names_unique(cat: Seq<ProjectView>) -> bool {
    forall|i: int, j: int|
        0 <= i < cat.len() && 0 <= j < cat.len() && i != j ==> #[trigger] cat[i].name
            != #[trigger] cat[j].name
}

/// A name that the catalog lacks, with the names that it holds.
#[derive(Clone, Debug, PartialEq, Eq)]
pub struct UnknownProject {
    pub name: String,
    pub valid: Vec<String>,
}

impl UnknownProject {
    /// The line that reports the error: the names that would have been found.
    pub fn message(&self) -> (r: String)
        ensures
            r@ == valid_projects_text(self.valid.deep_view()),
    {
        valid_projects(&self.valid)
    }
}

/// What a search of the catalog says, as mathematical values: the project,
/// or the name that was asked for with the names that the catalog holds.
pub open spec fn found(r: Result<Project, UnknownProject>) -> Result<
    ProjectView,
    (Seq<char>, Seq<Seq<char>>),
> {
    match r {
        Ok(p) => Ok(p@),
        Err(e) => Err((e.name@, e.valid.deep_view())),
    }
}

/// What a search for `name` gives: the first project of that name, or, where
/// the catalog has none, the name with all names of the catalog.
pub open spec fn search(cat: Seq<ProjectView>, name: Seq<char>) -> Result<
    ProjectView,
    (Seq<char>, Seq<Seq<char>>),
> {
    match named(cat, name) {
        Some(p) => Ok(p),
        None => Err((name, names(cat))),
    }
}

/// The first project called `name`, if the catalog has one.
pub fn lookup(name: &String, projects: &Vec<Project>) -> (r: Option<Project>)
    ensures
        r.deep_view() == named(projects.deep_view(), name@),
{
    let ghost cat = projects.deep_view();
    let ghost pred = |p: ProjectView| p.name == name@;
    let mut i: usize = 0;
    while i < projects.len()
        invariant
            i <= projects.len(),
            cat == projects.deep_view(),
            pred == |p: ProjectView| p.name == name@,
            forall|j: int| 0 <= j < i ==> !pred(#[trigger] cat[j]),
        decreases projects.len() - i,
    {
        if same(&projects[i].name, name) {
            proof {
                assert(pred(cat[i as int]));
                lemma_first_at(cat, pred, i as int);
            }
            return Some(projects[i].duplicate());
        }
        assert(!pred(cat[i as int]));
        i += 1;
    }
    proof {
        lemma_first_none(cat, pred);
    }
    None
}

/// Finds the project called `name`: the first of that name. A name that
/// the catalog lacks is an error that carries the names that it holds.
/// Group tags are not looked at.
pub fn find_project(name: &String, projects: &Vec<Project>) -> (r: Result<Project, UnknownProject>)
    ensures
        found(r) == search(projects.deep_view(), name@),
{
    match lookup(name, projects) {
        Some(p) => Ok(p),
        None => Err(UnknownProject { name: copy(name), valid: project_names(projects) }),
    }
}

/// The projects that carry the group tag, in catalog order.
pub fn group_members(tag: &String, projects: &Vec<Project>) -> (r: Vec<Project>)
    ensures
        r.deep_view() == members(projects.deep_view(), tag@),
{
    let ghost cat = projects.deep_view();
    let ghost pred = |p: ProjectView| p.in_group(tag@);
    let mut out: Vec<Project> = Vec::new();
    let mut i: usize = 0;
    proof {
        reveal(Seq::filter);
        assert(cat.take(0).filter(pred) =~= out.deep_view());
    }
    while i < projects.len()
        invariant
            i <= projects.len(),
            cat == projects.deep_view(),
            pred == |p: ProjectView| p.in_group(tag@),
            out.deep_view() == cat.take(i as int).filter(pred),
        decreases projects.len() - i,
    {
        let tagged = match &projects[i].group {
            Some(g) => contains(g, tag),
            None => false,
        };
        proof {
            reveal(Seq::filter);
            assert(cat.take(i as int + 1).drop_last() =~= cat.take(i as int));
            assert(cat.take(i as int + 1).last() == cat[i as int]);
            assert(tagged == pred(cat[i as int]));
        }
        let ghost before = out.deep_view();
        if tagged {
            out.push(projects[i].duplicate());
            assert(out.deep_view() =~= before.push(cat[i as int]));
        }
        i += 1;
    }
    assert(cat.take(projects.len() as int) =~= cat);
    out
}

/// The names of all projects, in catalog order.
pub fn project_names(projects: &Vec<Project>) -> (r: Vec<String>)
    ensures
        r.deep_view() == names(projects.deep_view()),
{
    let mut out: Vec<String> = Vec::new();
    let mut i: usize = 0;
    while i < projects.len()
        invariant
            i <= projects.len(),
            out.len() == i,
            forall|k: int| 0 <= k < i ==> out[k]@ == projects[k].name@,
        decreases projects.len() - i,
    {
        out.push(copy(&projects[i].name));
        i += 1;
    }
    assert(out.deep_view() =~= names(projects.deep_view()));
    out
}

/// The group tags of all projects, in catalog order, repetitions included.
pub fn all_group_tags(projects: &Vec<Project>) -> (r: Vec<String>)
    ensures
        r.deep_view() == group_tags(projects.deep_view()),
{
    let ghost cat = projects.deep_view();
    let mut out: Vec<String> = Vec::new();
    let mut i: usize = 0;
    assert(out.deep_view() =~= group_tags(cat.take(0)));
    while i < projects.len()
        invariant
            i <= projects.len(),
            cat == projects.deep_view(),
            out.deep_view() == group_tags(cat.take(i as int)),
        decreases projects.len() - i,
    {
        let ghost before = out.deep_view();
        proof {
            assert(cat.take(i as int + 1).drop_last() =~= cat.take(i as int));
            assert(cat.take(i as int + 1).last() == cat[i as int]);
        }
        match &projects[i].group {
            Some(g) => {
                let mut k: usize = 0;
                while k < g.len()
                    invariant
                        k <= g.len(),
                        out.deep_view() == before + g.deep_view().take(k as int),
                    decreases g.len() - k,
                {
                    let ghost prev = out.deep_view();
                    out.push(copy(&g[k]));
                    assert(out.deep_view() =~= prev.push(g.deep_view()[k as int]));
                    assert(g.deep_view().take(k as int + 1) =~= g.deep_view().take(k as int).push(
                        g.deep_view()[k as int],
                    ));
                    k += 1;
                }
                assert(g.deep_view().take(g.len() as int) =~= g.deep_view());
                assert(cat[i as int].tags() == g.deep_view());
            },
            None => {
                assert(out.deep_view() =~= before + cat[i as int].tags());
            },
        }
        i += 1;
    }
    assert(cat.take(projects.len() as int) =~= cat);
    out
}

} // verus!
