//! The records a dataset is made of.

use vstd::prelude::*;

verus! {

/// A star system: a node of the map.
#[derive(Debug, Clone)]
pub struct System {
    /// The identifier the dataset gives the system.
    pub id: i64,
    /// The system's name.
    pub name: String,
}

/// A jump gate: an undirected link between two systems, named by their
/// identifiers.
#[derive(Debug, Clone)]
pub struct Jump {
    pub from_id: i64,
    pub to_id: i64,
}

/// Finds the system of the given name: the position of the first system so
/// named, which is its node on the map; nothing where no system has the name.
pub fn find_system(systems: &[System], name: &String) -> (found: Option<usize>)
    ensures
        match found {
            Some(i) => i < systems.len() && systems[i as int].name@ == name@ && forall|j: int|
                0 <= j < i ==> (#[trigger] systems[j]).name@ != name@,
            None => forall|j: int| 0 <= j < systems.len() ==> (#[trigger] systems[j]).name@ != name@,
        },
{
    let mut i: usize = 0;
    while i < systems.len()
        invariant
            i <= systems.len(),
            forall|j: int| 0 <= j < i ==> (#[trigger] systems[j]).name@ != name@,
        decreases systems.len() - i,
    {
        if systems[i].name == *name {
            return Some(i);
        }
        i += 1;
    }
    None
}

} // verus!
