//! The verdict of the health checks: which models are there, whether every
//! check of a group passed, and the exit code.

use crate::render::same_chars;
use crate::text::to_chars;
use vstd::prelude::*;

verus! {

/// Whether every check of the group passed.
pub open spec fn all_ok(results: Seq<(String, bool)>) -> bool {
    forall|i: int| 0 <= i < results.len() ==> (#[trigger] results[i]).1
}

/// Whether a group of checks was carried out and every check of it passed.
pub open spec fn group_ok(group: Option<Vec<(String, bool)>>) -> bool {
    match group {
        Some(results) => all_ok(results@),
        None => false,
    }
}

/// Whether the model `name` is among the listed ones; an entry without a name
/// is no model.
pub open spec fn is_listed(listed: Seq<Option<String>>, name: Seq<char>) -> bool {
    exists|j: int| 0 <= j < listed.len() && #[trigger] listed[j] is Some && listed[j]->0@ == name
}

/// Whether the model `name` is available: the models could be listed, and it
/// is among them.
pub open spec fn is_available(listed: Option<Vec<Option<String>>>, name: Seq<char>) -> bool {
    match listed {
        Some(entries) => is_listed(entries@, name),
        None => false,
    }
}

/// Whether every check of the group passed.
pub fn all_passed(results: &Vec<(String, bool)>) -> (ok: bool)
    ensures
        ok == all_ok(results@),
{
    let mut i: usize = 0;
    while i < results.len()
        invariant
            i <= results.len(),
            forall|k: int| 0 <= k < i ==> (#[trigger] results@[k]).1,
        decreases results.len() - i,
    {
        if !results[i].1 {
            return false;
        }
        i += 1;
    }
    true
}

/// The exit code of the diagnosis: 0 where the network checks and the model
/// checks were carried out and all passed and the service answered, else 1.
pub fn exit_code(
    network: &Option<Vec<(String, bool)>>,
    service: bool,
    models: &Option<Vec<(String, bool)>>,
) -> (code: i32)
    ensures
        code == if group_ok(*network) && service && group_ok(*models) {
            0i32
        } else {
            1i32
        },
{
    let network_ok = match network {
        Some(results) => all_passed(results),
        None => false,
    };
    let models_ok = match models {
        Some(results) => all_passed(results),
        None => false,
    };
    if network_ok && service && models_ok {
        0
    } else {
        1
    }
}

/// Whether the model `name` is among the listed ones.
pub fn model_listed(listed: &Vec<Option<String>>, name: &str) -> (found: bool)
    ensures
        found == is_listed(listed@, name@),
{
    let wanted = to_chars(name);
    let mut j: usize = 0;
    while j < listed.len()
        invariant
            j <= listed.len(),
            wanted@ == name@,
            forall|k: int| 0 <= k < j ==> !(#[trigger] listed@[k] is Some && listed@[k]->0@ == name@),
        decreases listed.len() - j,
    {
        match &listed[j] {
            Some(entry) => {
                let chars = to_chars(entry.as_str());
                if same_chars(&chars, &wanted) {
                    return true;
                }
            },
            None => {},
        }
        j += 1;
    }
    false
}

/// For each model that is needed, in order, its name and whether it is
/// available. `listed` holds the names of the models that the service has,
/// `None` where it gave no list.
pub fn model_statuses(needed: &Vec<String>, listed: &Option<Vec<Option<String>>>) -> (statuses:
    Vec<(String, bool)>)
    ensures
        statuses.len() == needed.len(),
        forall|i: int|
            0 <= i < needed.len() ==> (#[trigger] statuses@[i]).0@ == needed@[i]@ && statuses@[i].1
                == is_available(*listed, needed@[i]@),
{
    let mut statuses: Vec<(String, bool)> = Vec::new();
    let mut i: usize = 0;
    while i < needed.len()
        invariant
            i <= needed.len(),
            statuses.len() == i,
            forall|k: int|
                0 <= k < i ==> (#[trigger] statuses@[k]).0@ == needed@[k]@ && statuses@[k].1
                    == is_available(*listed, needed@[k]@),
        decreases needed.len() - i,
    {
        let found = match listed {
            Some(entries) => model_listed(entries, needed[i].as_str()),
            None => false,
        };
        statuses.push((needed[i].clone(), found));
        i += 1;
    }
    statuses
}

} // verus!
