use vstd::prelude::*;

verus! {

/// Number of faces of a cube.
pub const CUBE_FACES: usize = 6;

/// Which of a face's four corners the `k`-th index of that face names: the
/// face is drawn as the two triangles (0, 1, 2) and (2, 3, 0).
pub open spec fn face_corner(k: int) -> int {
    if k == 0 || k == 5 {
        0
    } else if k == 1 {
        1
    } else if k == 2 || k == 3 {
        2
    } else {
        3
    }
}

/// Triangle indices for a cube whose vertex list holds four corners per face,
/// face after face: six indices per face, two triangles each.
pub fn cube_indices() -> (r: Vec<u16>)
    ensures
        r@.len() == 6 * CUBE_FACES,
        forall|f: int, k: int|
            0 <= f < CUBE_FACES && 0 <= k < 6 ==> #[trigger] r@[6 * f + k] == 4 * f + face_corner(k),
{
    let mut r: Vec<u16> = Vec::new();
    let mut f: u16 = 0;
    while f < 6
        invariant
            f <= 6,
            r@.len() == 6 * f,
            forall|g: int, k: int|
                0 <= g < f && 0 <= k < 6 ==> #[trigger] r@[6 * g + k] == 4 * g + face_corner(k),
        decreases 6 - f,
    {
        let base: u16 = 4 * f;
        r.push(base);
        r.push(base + 1);
        r.push(base + 2);
        r.push(base + 2);
        r.push(base + 3);
        r.push(base);
        f = f + 1;
    }
    r
}

} // verus!
