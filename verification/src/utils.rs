use vstd::prelude::*;

verus! {

/// The first eight items of a vector, as an array.
pub fn vec_to_array<T: Copy>(vector: &Vec<T>) -> (array: [T; 8])
    requires
        vector.len() >= 8,
    ensures
        forall|i: int| 0 <= i < 8 ==> array[i] == vector[i],
{
    [
        vector[0],
        vector[1],
        vector[2],
        vector[3],
        vector[4],
        vector[5],
        vector[6],
        vector[7],
    ]
}

} // verus!
