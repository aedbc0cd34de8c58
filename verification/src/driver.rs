//! Picking the rendering driver: the first driver whose name is
//! exactly "opengl", out of the machine's driver list.

use vstd::prelude::*;

verus! {

/// The index of the first driver named "opengl", if any: exactly the
/// earliest match, and `None` only when no name matches.
pub fn first_opengl_index(names: &Vec<String>) -> (r: Option<usize>)
    ensures
        r matches Some(i) ==> i < names@.len() && names@[i as int]@ == "opengl"@ && (forall|j: int|
            0 <= j < i ==> names@[j]@ != "opengl"@),
        r is None ==> forall|j: int| 0 <= j < names@.len() ==> names@[j]@ != "opengl"@,
{
    let target: String = "opengl".to_owned();
    let n = names.len();
    let mut i: usize = 0;
    while i < n
        invariant
            i <= n,
            n == names@.len(),
            target@ == "opengl"@,
            forall|j: int| 0 <= j < i ==> names@[j]@ != "opengl"@,
        decreases n - i,
    {
        if names[i] == target {
            return Some(i);
        }
        i = i + 1;
    }
    None
}

} // verus!
