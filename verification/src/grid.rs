//! Four-by-four grids of values of any kind, as the transforms of a scene
//! are laid out: `m[row][col]`.

use vstd::prelude::*;

verus! {

/// `t` holds in row `i`, column `j` what `m` holds in row `j`, column `i`.
pub open spec fn is_transpose<T>(m: [[T; 4]; 4], t: [[T; 4]; 4]) -> bool {
    forall|i: int, j: int| 0 <= i < 4 && 0 <= j < 4 ==> t[i][j] == m[j][i]
}

/// The grid whose rows are the columns of `m`.
pub fn transpose<T: Copy>(m: &[[T; 4]; 4]) -> (t: [[T; 4]; 4])
    ensures
        is_transpose(*m, t),
{
    [
        [m[0][0], m[1][0], m[2][0], m[3][0]],
        [m[0][1], m[1][1], m[2][1], m[3][1]],
        [m[0][2], m[1][2], m[2][2], m[3][2]],
        [m[0][3], m[1][3], m[2][3], m[3][3]],
    ]
}

/// Transposing twice gives the grid back.
pub proof fn lemma_transpose_twice<T>(m: [[T; 4]; 4], t: [[T; 4]; 4], back: [[T; 4]; 4])
    requires
        is_transpose(m, t),
        is_transpose(t, back),
    ensures
        back == m,
        is_transpose(t, m),
{
    assert forall|i: int| 0 <= i < 4 implies back[i] == m[i] by {
        assert forall|j: int| 0 <= j < 4 implies back[i][j] == m[i][j] by {
            assert(back[i][j] == t[j][i]);
            assert(t[j][i] == m[i][j]);
        }
        assert(back[i] =~= m[i]);
    }
    assert(back =~= m);
}

} // verus!
