//! The lines that the supervisor reports to its user.

use crate::text::copy;
use vstd::prelude::*;
use vstd::string::*;

verus! {

/// The report on a start that found the project live.
pub open spec fn already_running_text(label: Seq<char>) -> Seq<char> {
    label + " is already running"@
}

/// The report on a project that is known but not live.
pub open spec fn not_running_text(label: Seq<char>) -> Seq<char> {
    label + " is not running"@
}

/// The report on a token that names neither a project, a group nor an instance.
pub open spec fn unknown_text(token: Seq<char>) -> Seq<char> {
    token + " is not a project nor a running command"@
}

/// The report on an instance that outlived the time allowed for stopping.
pub open spec fn stop_failed_text(label: Seq<char>) -> Seq<char> {
    "Was not able to stop "@ + label
}

/// The status line of a live instance.
pub open spec fn running_text(label: Seq<char>) -> Seq<char> {
    label + " is running"@
}

/// The report on a dependency that the catalog does not hold.
pub open spec fn unknown_dependency_text(name: Seq<char>) -> Seq<char> {
    name + " is not a project"@
}

/// The report on a dependency that leads back to a project being started.
pub open spec fn cycle_text(name: Seq<char>) -> Seq<char> {
    "Dependency cycle through "@ + name
}

/// The report on a signal that could not be delivered.
pub open spec fn signal_failed_text(detail: Seq<char>) -> Seq<char> {
    "Error trying to stop project: "@ + detail
}

/// The report on a stale record that could not be deleted.
pub open spec fn cleanup_failed_text(file: Seq<char>) -> Seq<char> {
    "Could not remove stale record "@ + file
}

/// The report on a project for which no process could be created.
pub open spec fn launch_failed_text(label: Seq<char>) -> Seq<char> {
    "Could not start "@ + label
}

/// The names, one after the other, with a comma and a blank between two.
pub open spec fn listed(names: Seq<Seq<char>>) -> Seq<char>
    decreases names.len(),
{
    if names.len() == 0 {
        Seq::empty()
    } else if names.len() == 1 {
        names[0]
    } else {
        listed(names.drop_last()) + ", "@ + names.last()
    }
}

/// The report on a name that the catalog lacks: the names that it holds.
pub open spec fn valid_projects_text(valid: Seq<Seq<char>>) -> Seq<char> {
    "Valid projects are "@ + listed(valid)
}

/// Writes the names that the catalog holds, for a name that it lacks.
pub fn valid_projects(valid: &Vec<String>) -> (r: String)
    ensures
        r@ == valid_projects_text(valid.deep_view()),
{
    let ghost all = valid.deep_view();
    let mut list = String::new();
    let mut i: usize = 0;
    assert(all.take(0) =~= Seq::<Seq<char>>::empty());
    while i < valid.len()
        invariant
            i <= valid.len(),
            all == valid.deep_view(),
            list@ == listed(all.take(i as int)),
        decreases valid.len() - i,
    {
        proof {
            assert(all.take(i as int + 1).drop_last() =~= all.take(i as int));
            assert(all.take(i as int + 1).last() == all[i as int]);
            assert(all.take(i as int).len() == i);
        }
        if i > 0 {
            list.append(", ");
        }
        list.append(valid[i].as_str());
        proof {
            if i == 0 {
                assert(list@ =~= all[0]);
            }
        }
        i += 1;
    }
    assert(all.take(valid.len() as int) =~= all);
    let out = String::from_str("Valid projects are ").concat(list.as_str());
    out
}

/// Writes the report on a start that found the project live.
pub fn already_running(label: &String) -> (r: String)
    ensures
        r@ == already_running_text(label@),
{
    copy(label).concat(" is already running")
}

/// Writes the report on a project that is known but not live.
pub fn not_running(label: &String) -> (r: String)
    ensures
        r@ == not_running_text(label@),
{
    copy(label).concat(" is not running")
}

/// Writes the report on a token that names nothing.
pub fn unknown(token: &String) -> (r: String)
    ensures
        r@ == unknown_text(token@),
{
    copy(token).concat(" is not a project nor a running command")
}

/// Writes the report on an instance that did not stop in time.
pub fn stop_failed(label: &String) -> (r: String)
    ensures
        r@ == stop_failed_text(label@),
{
    String::from_str("Was not able to stop ").concat(label.as_str())
}

/// Writes the status line of a live instance.
pub fn running(label: &String) -> (r: String)
    ensures
        r@ == running_text(label@),
{
    copy(label).concat(" is running")
}

/// Writes the report on a dependency that the catalog does not hold.
pub fn unknown_dependency(name: &String) -> (r: String)
    ensures
        r@ == unknown_dependency_text(name@),
{
    copy(name).concat(" is not a project")
}

/// Writes the report on a dependency cycle.
pub fn cycle(name: &String) -> (r: String)
    ensures
        r@ == cycle_text(name@),
{
    String::from_str("Dependency cycle through ").concat(name.as_str())
}

/// Writes the report on a signal that could not be delivered.
pub fn signal_failed(detail: &String) -> (r: String)
    ensures
        r@ == signal_failed_text(detail@),
{
    String::from_str("Error trying to stop project: ").concat(detail.as_str())
}

/// Writes the report on a stale record that could not be deleted.
pub fn cleanup_failed(file: &String) -> (r: String)
    ensures
        r@ == cleanup_failed_text(file@),
{
    String::from_str("Could not remove stale record ").concat(file.as_str())
}

/// Writes the report on a project for which no process could be created.
pub fn launch_failed(label: &String) -> (r: String)
    ensures
        r@ == launch_failed_text(label@),
{
    String::from_str("Could not start ").concat(label.as_str())
}

} // verus!
