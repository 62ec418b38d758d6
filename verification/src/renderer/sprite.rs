use vstd::prelude::*;

verus! {

/// Grid cell `(column, row)` of frame `frame` in a sheet with `columns`
/// columns; frames are numbered row by row.
pub fn frame_cell(frame: u32, columns: u32) -> (r: (u32, u32))
    requires
        columns > 0,
    ensures
        r.0 == frame % columns,
        r.1 == frame / columns,
{
    (frame % columns, frame / columns)
}

/// The cell of a frame lies inside the grid and numbers the frame back:
/// `row * columns + column == frame`.
pub proof fn lemma_frame_cell_inverts(frame: u32, columns: u32)
    requires
        columns > 0,
    ensures
        frame % columns < columns,
        (frame / columns) * columns + frame % columns == frame,
{
    assert(frame % columns < columns && (frame / columns) * columns + frame % columns == frame)
        by (nonlinear_arith)
        requires
            columns > 0,
    ;
}

/// The texture coordinates `[u, v]` of the four corners of a sprite quad,
/// in the order bottom-left, bottom-right, top-right, top-left, for the
/// rectangle `uv == [u0, v0, u1, v1]`. `flip_x` swaps `u0` and `u1`,
/// `flip_y` swaps `v0` and `v1`.
pub fn quad_uvs<T: Copy>(uv: [T; 4], flip_x: bool, flip_y: bool) -> (r: [[T; 2]; 4])
    ensures
        ({
            let (l, rt) = if flip_x { (uv@[2], uv@[0]) } else { (uv@[0], uv@[2]) };
            let (t, b) = if flip_y { (uv@[3], uv@[1]) } else { (uv@[1], uv@[3]) };
            &&& r@[0]@ == seq![l, b]
            &&& r@[1]@ == seq![rt, b]
            &&& r@[2]@ == seq![rt, t]
            &&& r@[3]@ == seq![l, t]
        }),
{
    let (u0, u1) = if flip_x { (uv[2], uv[0]) } else { (uv[0], uv[2]) };
    let (v0, v1) = if flip_y { (uv[3], uv[1]) } else { (uv[1], uv[3]) };
    let r = [[u0, v1], [u1, v1], [u1, v0], [u0, v0]];
    assert(r@[0]@ =~= seq![u0, v1]);
    assert(r@[1]@ =~= seq![u1, v1]);
    assert(r@[2]@ =~= seq![u1, v0]);
    assert(r@[3]@ =~= seq![u0, v0]);
    r
}

} // verus!
