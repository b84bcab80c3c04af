//! Which of the wanted programs are running, given the names the system
//! listed.
use vstd::prelude::*;
use crate::text::{lowercase, to_lower, views};

verus! {

/// A name is running when some listed name equals it after lowercasing.
pub open spec fn running_in(name: Seq<char>, listed: Seq<Seq<char>>) -> bool {
    exists|k: int| 0 <= k < listed.len() && lowercase(#[trigger] listed[k]) == lowercase(name)
}

/// Whether a program runs, the comparison ignoring case, against a
/// snapshot of the running programs' names.
pub fn is_running(name: &str, listed: &Vec<String>) -> (r: bool)
    ensures
        r == running_in(name@, views(listed@)),
{
    let wanted = to_lower(name);
    let mut i: usize = 0;
    while i < listed.len()
        invariant
            i <= listed.len(),
            wanted@ == lowercase(name@),
            forall|k: int| 0 <= k < i ==> lowercase(#[trigger] views(listed@)[k]) != lowercase(name@),
        decreases listed.len() - i,
    {
        let item = to_lower(listed[i].as_str());
        if item == wanted {
            assert(lowercase(views(listed@)[i as int]) == lowercase(name@));
            return true;
        }
        i += 1;
    }
    false
}

/// The wanted names that are running, in the order given.
pub open spec fn running_names(names: Seq<Seq<char>>, listed: Seq<Seq<char>>) -> Seq<Seq<char>>
    decreases names.len(),
{
    if names.len() == 0 {
        names
    } else if running_in(names.last(), listed) {
        running_names(names.drop_last(), listed).push(names.last())
    } else {
        running_names(names.drop_last(), listed)
    }
}

pub fn running_processes(names: &Vec<String>, listed: &Vec<String>) -> (r: Vec<String>)
    ensures
        views(r@) == running_names(views(names@), views(listed@)),
{
    let mut running: Vec<String> = Vec::new();
    let mut i: usize = 0;
    assert(views(names@).take(0) =~= Seq::<Seq<char>>::empty());
    assert(views(running@) =~= Seq::<Seq<char>>::empty());
    while i < names.len()
        invariant
            i <= names.len(),
            views(running@) == running_names(views(names@).take(i as int), views(listed@)),
        decreases names.len() - i,
    {
        let ghost taken = views(names@).take(i + 1);
        assert(taken.drop_last() =~= views(names@).take(i as int));
        assert(taken.last() == names@[i as int]@);
        if is_running(names[i].as_str(), listed) {
            running.push(names[i].clone());
            assert(views(running@) =~= running_names(views(names@).take(i as int), views(listed@)).push(
                names@[i as int]@,
            ));
        }
        i += 1;
    }
    assert(views(names@).take(names.len() as int) =~= views(names@));
    running
}

} // verus!
