//! The catalogue of actions that method calls compile to.
use vstd::prelude::*;

use crate::text::str_eq;

verus! {

/// An argument of an action: its identifier, its type and the values it may take.
#[derive(Debug)]
pub struct Argument {
    pub id: String,
    pub kind: String,
    pub values: Option<Vec<String>>,
}

/// An action: `object::name(...)` in the source compiles to the action `id`,
/// whose positional arguments are named after `args`.
#[derive(Debug)]
pub struct Action {
    pub id: String,
    pub name: String,
    pub object: String,
    pub args: Vec<Argument>,
    pub kind: String,
}

/// `i` is the first index of an action for `object::name`.
pub open spec fn is_first_action(actions: Seq<Action>, object: Seq<char>, name: Seq<char>, i: int) -> bool {
    &&& 0 <= i < actions.len()
    &&& actions[i].object@ == object && actions[i].name@ == name
    &&& forall|j: int| 0 <= j < i ==> !(actions[j].object@ == object && actions[j].name@ == name)
}

/// The index of the first action for `object::name`, if there is one.
pub open spec fn action_index(actions: Seq<Action>, object: Seq<char>, name: Seq<char>) -> Option<int> {
    if exists|i: int| is_first_action(actions, object, name, i) {
        Some(choose|i: int| is_first_action(actions, object, name, i))
    } else {
        None
    }
}

/// The first action for `object::name`.
pub fn find_action<'a>(actions: &'a Vec<Action>, object: &str, name: &str) -> (r: Option<&'a Action>)
    ensures
        match action_index(actions@, object@, name@) {
            Some(i) => r matches Some(a) && *a == actions@[i],
            None => r is None,
        },
{
    let mut i: usize = 0;
    while i < actions.len()
        invariant
            0 <= i <= actions@.len(),
            forall|j: int|
                0 <= j < i ==> !(#[trigger] actions@[j].object@ == object@ && actions@[j].name@ == name@),
        decreases actions@.len() - i,
    {
        let a = &actions[i];
        if str_eq(a.object.as_str(), object) && str_eq(a.name.as_str(), name) {
            assert(is_first_action(actions@, object@, name@, i as int));
            let ghost k = choose|k: int| is_first_action(actions@, object@, name@, k);
            assert(k == i) by {
                if k < i {
                    assert(!(actions@[k].object@ == object@ && actions@[k].name@ == name@));
                } else if k > i {
                    assert(!(actions@[i as int].object@ == object@ && actions@[i as int].name@ == name@));
                }
            }
            return Some(a);
        }
        i += 1;
    }
    assert forall|k: int| !is_first_action(actions@, object@, name@, k) by {
        if 0 <= k < actions@.len() {
            assert(!(actions@[k].object@ == object@ && actions@[k].name@ == name@));
        }
    }
    None
}

} // verus!
