//! The attack-mask generator: walking each catalog ray from a square,
//! stopping at board edges, and stopping at (or just past, per the flag)
//! the first occupied square.

use vstd::prelude::*;
use crate::bits::bit_set;
use crate::catalog::{cat_view, piece_rays};
use crate::color::ChessColor;
use crate::constants::Constants;
use crate::coords::{on_board, square_of};
use crate::piece::ChessPiece;

verus! {

/// The single-bit mask of square `s`.
pub open spec fn square_bit(s: int) -> u64
    recommends
        0 <= s < 64,
{
    1u64 << (s as u64)
}

/// The squares one ray contributes, walking its offsets in order from
/// (col, row): an off-board step ends the ray; a step onto an occupied
/// square ends it too, counting that square only under threat semantics
/// (`include_piece_spaces`); every other step is counted and walking goes
/// on.
pub open spec fn walk_ray(
    ray: Seq<(i32, i32)>,
    col: int,
    row: int,
    other_pieces: u64,
    include_piece_spaces: bool,
) -> u64
    decreases ray.len(),
{
    if ray.len() == 0 {
        0u64
    } else {
        let c = col + ray[0].0;
        let r = row + ray[0].1;
        if !on_board(c, r) {
            0u64
        } else if bit_set(other_pieces, square_of(c, r) as u64) {
            if include_piece_spaces {
                square_bit(square_of(c, r))
            } else {
                0u64
            }
        } else {
            square_bit(square_of(c, r)) | walk_ray(
                ray.drop_first(),
                col,
                row,
                other_pieces,
                include_piece_spaces,
            )
        }
    }
}

/// The union of the contributions of all rays; rays are independent and
/// never interact.
pub open spec fn walk_rays(
    rays: Seq<Seq<(i32, i32)>>,
    col: int,
    row: int,
    other_pieces: u64,
    include_piece_spaces: bool,
) -> u64
    decreases rays.len(),
{
    if rays.len() == 0 {
        0u64
    } else {
        walk_rays(rays.drop_last(), col, row, other_pieces, include_piece_spaces) | walk_ray(
            rays.last(),
            col,
            row,
            other_pieces,
            include_piece_spaces,
        )
    }
}

/// The bitboard of squares a piece on `position` threatens (flag true) or
/// can travel to (flag false) given the occupancy `other_pieces`.
pub open spec fn attack_spaces(
    piece: ChessPiece,
    color: ChessColor,
    position: u64,
    other_pieces: u64,
    include_piece_spaces: bool,
) -> u64
    recommends
        position < 64,
{
    walk_rays(
        piece_rays(piece, color),
        position as int % 8,
        position as int / 8,
        other_pieces,
        include_piece_spaces,
    )
}

/// The maximal attack footprint of a piece on a square: every square it
/// could reach or threaten with no blockers at all.
pub open spec fn footprint(piece: ChessPiece, color: ChessColor, position: u64) -> u64
    recommends
        position < 64,
{
    attack_spaces(piece, color, position, 0, true)
}

/// The first `j` steps of the ray land on the board and on unoccupied
/// squares: the walk does not stop before step `j`.
pub open spec fn free_prefix(
    ray: Seq<(i32, i32)>,
    col: int,
    row: int,
    other_pieces: u64,
    j: int,
) -> bool {
    forall|j2: int|
        0 <= j2 < j ==> on_board(col + (#[trigger] ray[j2]).0, row + ray[j2].1) && !bit_set(
            other_pieces,
            square_of(col + ray[j2].0, row + ray[j2].1) as u64,
        )
}

/// The walk along this ray counts step `j`'s square: the steps before it
/// are on the board and unoccupied, the step itself is on the board, and if
/// it is occupied the semantics include blocker squares.
pub open spec fn ray_reaches(
    ray: Seq<(i32, i32)>,
    col: int,
    row: int,
    other_pieces: u64,
    include_piece_spaces: bool,
    j: int,
) -> bool {
    &&& 0 <= j < ray.len()
    &&& free_prefix(ray, col, row, other_pieces, j)
    &&& on_board(col + ray[j].0, row + ray[j].1)
    &&& (include_piece_spaces || !bit_set(
        other_pieces,
        square_of(col + ray[j].0, row + ray[j].1) as u64,
    ))
}

/// A counted step's square is in the ray's walk result.
proof fn lemma_walk_ray_covers(
    ray: Seq<(i32, i32)>,
    col: int,
    row: int,
    other_pieces: u64,
    include_piece_spaces: bool,
    j: int,
)
    requires
        ray_reaches(ray, col, row, other_pieces, include_piece_spaces, j),
    ensures
        bit_set(
            walk_ray(ray, col, row, other_pieces, include_piece_spaces),
            square_of(col + ray[j].0, row + ray[j].1) as u64,
        ),
    decreases j,
{
    reveal_with_fuel(walk_ray, 2);
    crate::coords::lemma_square_coords_roundtrip();
    let sq: u64 = square_of(col + ray[j].0, row + ray[j].1) as u64;
    assert(sq < 64);
    if j == 0 {
        crate::bits::lemma_bit_single(sq, sq);
        if !bit_set(other_pieces, sq) {
            crate::bits::lemma_bit_or(
                square_bit(sq as int),
                walk_ray(ray.drop_first(), col, row, other_pieces, include_piece_spaces),
                sq,
            );
        }
    } else {
        let tail = ray.drop_first();
        assert(on_board(col + ray[0].0, row + ray[0].1));
        assert forall|j2: int| 0 <= j2 < j - 1 implies on_board(
            col + (#[trigger] tail[j2]).0,
            row + tail[j2].1,
        ) && !bit_set(other_pieces, square_of(col + tail[j2].0, row + tail[j2].1) as u64) by {
            assert(tail[j2] == ray[j2 + 1]);
        }
        assert(tail[j - 1] == ray[j]);
        assert(ray_reaches(tail, col, row, other_pieces, include_piece_spaces, j - 1));
        lemma_walk_ray_covers(tail, col, row, other_pieces, include_piece_spaces, j - 1);
        crate::bits::lemma_bit_or(
            square_bit(square_of(col + ray[0].0, row + ray[0].1)),
            walk_ray(tail, col, row, other_pieces, include_piece_spaces),
            sq,
        );
    }
}

/// Every bit of the ray's walk result is a counted step's square.
proof fn lemma_walk_ray_bits(
    ray: Seq<(i32, i32)>,
    col: int,
    row: int,
    other_pieces: u64,
    include_piece_spaces: bool,
    s: u64,
)
    requires
        bit_set(walk_ray(ray, col, row, other_pieces, include_piece_spaces), s),
    ensures
        exists|j: int|
            #[trigger] ray_reaches(ray, col, row, other_pieces, include_piece_spaces, j)
                && square_of(col + ray[j].0, row + ray[j].1) == s,
    decreases ray.len(),
{
    reveal_with_fuel(walk_ray, 2);
    if ray.len() == 0 {
        crate::bits::lemma_bit_zero(0u64, s);
        assert(false);
    } else {
        let c = col + ray[0].0;
        let r = row + ray[0].1;
        if !on_board(c, r) {
            crate::bits::lemma_bit_zero(0u64, s);
            assert(false);
        } else {
            let sq: u64 = square_of(c, r) as u64;
            crate::coords::lemma_square_coords_roundtrip();
            crate::bits::lemma_bit_single(sq, s);
            if bit_set(other_pieces, sq) {
                if include_piece_spaces {
                    assert(s == sq);
                    assert(ray_reaches(ray, col, row, other_pieces, include_piece_spaces, 0));
                } else {
                    crate::bits::lemma_bit_zero(0u64, s);
                    assert(false);
                }
            } else {
                let tail = ray.drop_first();
                crate::bits::lemma_bit_or(
                    square_bit(square_of(c, r)),
                    walk_ray(tail, col, row, other_pieces, include_piece_spaces),
                    s,
                );
                if bit_set(square_bit(square_of(c, r)), s) {
                    assert(s == sq);
                    assert(ray_reaches(ray, col, row, other_pieces, include_piece_spaces, 0));
                } else {
                    lemma_walk_ray_bits(tail, col, row, other_pieces, include_piece_spaces, s);
                    let j2: int = choose|j2: int|
                        #[trigger] ray_reaches(
                            tail,
                            col,
                            row,
                            other_pieces,
                            include_piece_spaces,
                            j2,
                        ) && square_of(col + tail[j2].0, row + tail[j2].1) == s;
                    assert forall|t: int| 0 <= t < j2 + 1 implies on_board(
                        col + (#[trigger] ray[t]).0,
                        row + ray[t].1,
                    ) && !bit_set(
                        other_pieces,
                        square_of(col + ray[t].0, row + ray[t].1) as u64,
                    ) by {
                        if t > 0 {
                            assert(tail[t - 1] == ray[t]);
                        }
                    }
                    assert(tail[j2] == ray[j2 + 1]);
                    assert(ray_reaches(
                        ray,
                        col,
                        row,
                        other_pieces,
                        include_piece_spaces,
                        j2 + 1,
                    ));
                }
            }
        }
    }
}

/// A square counted by some ray is in the union of all rays' walks.
proof fn lemma_walk_rays_covers(
    rays: Seq<Seq<(i32, i32)>>,
    col: int,
    row: int,
    other_pieces: u64,
    include_piece_spaces: bool,
    ri: int,
    j: int,
)
    requires
        0 <= ri < rays.len(),
        ray_reaches(rays[ri], col, row, other_pieces, include_piece_spaces, j),
    ensures
        bit_set(
            walk_rays(rays, col, row, other_pieces, include_piece_spaces),
            square_of(col + rays[ri][j].0, row + rays[ri][j].1) as u64,
        ),
    decreases rays.len(),
{
    reveal_with_fuel(walk_rays, 2);
    let sq: u64 = square_of(col + rays[ri][j].0, row + rays[ri][j].1) as u64;
    if ri == rays.len() - 1 {
        lemma_walk_ray_covers(rays[ri], col, row, other_pieces, include_piece_spaces, j);
        crate::bits::lemma_bit_or(
            walk_rays(rays.drop_last(), col, row, other_pieces, include_piece_spaces),
            walk_ray(rays.last(), col, row, other_pieces, include_piece_spaces),
            sq,
        );
    } else {
        assert(rays.drop_last()[ri] == rays[ri]);
        lemma_walk_rays_covers(
            rays.drop_last(),
            col,
            row,
            other_pieces,
            include_piece_spaces,
            ri,
            j,
        );
        crate::bits::lemma_bit_or(
            walk_rays(rays.drop_last(), col, row, other_pieces, include_piece_spaces),
            walk_ray(rays.last(), col, row, other_pieces, include_piece_spaces),
            sq,
        );
    }
}

/// Every bit of the union is a square counted by one of the rays.
proof fn lemma_walk_rays_bits(
    rays: Seq<Seq<(i32, i32)>>,
    col: int,
    row: int,
    other_pieces: u64,
    include_piece_spaces: bool,
    s: u64,
)
    requires
        bit_set(walk_rays(rays, col, row, other_pieces, include_piece_spaces), s),
    ensures
        exists|ri: int, j: int|
            0 <= ri < rays.len() && #[trigger] ray_reaches(
                rays[ri],
                col,
                row,
                other_pieces,
                include_piece_spaces,
                j,
            ) && square_of(col + rays[ri][j].0, row + rays[ri][j].1) == s,
    decreases rays.len(),
{
    reveal_with_fuel(walk_rays, 2);
    if rays.len() == 0 {
        crate::bits::lemma_bit_zero(0u64, s);
        assert(false);
    } else {
        crate::bits::lemma_bit_or(
            walk_rays(rays.drop_last(), col, row, other_pieces, include_piece_spaces),
            walk_ray(rays.last(), col, row, other_pieces, include_piece_spaces),
            s,
        );
        if bit_set(walk_ray(rays.last(), col, row, other_pieces, include_piece_spaces), s) {
            lemma_walk_ray_bits(rays.last(), col, row, other_pieces, include_piece_spaces, s);
            let j: int = choose|j: int|
                #[trigger] ray_reaches(
                    rays.last(),
                    col,
                    row,
                    other_pieces,
                    include_piece_spaces,
                    j,
                ) && square_of(col + rays.last()[j].0, row + rays.last()[j].1) == s;
            assert(rays[rays.len() - 1] == rays.last());
            assert(0 <= rays.len() - 1 < rays.len() && ray_reaches(
                rays[rays.len() - 1],
                col,
                row,
                other_pieces,
                include_piece_spaces,
                j,
            ) && square_of(
                col + rays[rays.len() - 1][j].0,
                row + rays[rays.len() - 1][j].1,
            ) == s);
        } else {
            lemma_walk_rays_bits(
                rays.drop_last(),
                col,
                row,
                other_pieces,
                include_piece_spaces,
                s,
            );
            let (ri, j): (int, int) = choose|ri: int, j: int|
                0 <= ri < rays.drop_last().len() && #[trigger] ray_reaches(
                    rays.drop_last()[ri],
                    col,
                    row,
                    other_pieces,
                    include_piece_spaces,
                    j,
                ) && square_of(
                    col + rays.drop_last()[ri][j].0,
                    row + rays.drop_last()[ri][j].1,
                ) == s;
            assert(rays.drop_last()[ri] == rays[ri]);
            assert(0 <= ri < rays.len() && ray_reaches(
                rays[ri],
                col,
                row,
                other_pieces,
                include_piece_spaces,
                j,
            ) && square_of(col + rays[ri][j].0, row + rays[ri][j].1) == s);
        }
    }
}

proof fn lemma_walk_ray_zero_occupancy(ray: Seq<(i32, i32)>, col: int, row: int)
    ensures
        walk_ray(ray, col, row, 0, true) == walk_ray(ray, col, row, 0, false),
    decreases ray.len(),
{
    if ray.len() > 0 {
        let c = col + ray[0].0;
        let r = row + ray[0].1;
        if on_board(c, r) {
            crate::bits::lemma_bit_zero(0u64, square_of(c, r) as u64);
            lemma_walk_ray_zero_occupancy(ray.drop_first(), col, row);
        }
    }
}

proof fn lemma_walk_rays_zero_occupancy(rays: Seq<Seq<(i32, i32)>>, col: int, row: int)
    ensures
        walk_rays(rays, col, row, 0, true) == walk_rays(rays, col, row, 0, false),
    decreases rays.len(),
{
    if rays.len() > 0 {
        lemma_walk_rays_zero_occupancy(rays.drop_last(), col, row);
        lemma_walk_ray_zero_occupancy(rays.last(), col, row);
    }
}

/// With no blockers at all the threat and the move result coincide: both
/// are the square's maximal footprint.
pub proof fn lemma_attack_spaces_zero_occupancy(
    piece: ChessPiece,
    color: ChessColor,
    position: u64,
)
    ensures
        attack_spaces(piece, color, position, 0, true) == footprint(piece, color, position),
        attack_spaces(piece, color, position, 0, false) == footprint(piece, color, position),
{
    lemma_walk_rays_zero_occupancy(
        piece_rays(piece, color),
        position as int % 8,
        position as int / 8,
    );
}

/// The column of a square index.
pub open spec fn pos_col(position: u64) -> int {
    position as int % 8
}

/// The row of a square index.
pub open spec fn pos_row(position: u64) -> int {
    position as int / 8
}

/// The square reached by step `j` of ray `ri` of a piece's catalog, walked
/// from `position`.
pub open spec fn ray_step_square(
    piece: ChessPiece,
    color: ChessColor,
    position: u64,
    ri: int,
    j: int,
) -> int {
    square_of(
        pos_col(position) + piece_rays(piece, color)[ri][j].0,
        pos_row(position) + piece_rays(piece, color)[ri][j].1,
    )
}

/// Step `j` of ray `ri` lands on the board when walked from `position`.
pub open spec fn ray_step_on_board(
    piece: ChessPiece,
    color: ChessColor,
    position: u64,
    ri: int,
    j: int,
) -> bool {
    on_board(
        pos_col(position) + piece_rays(piece, color)[ri][j].0,
        pos_row(position) + piece_rays(piece, color)[ri][j].1,
    )
}

/// Two on-board steps of a separated catalog that land on the same square
/// are the same step of the same ray.
proof fn lemma_square_determines_step(
    piece: ChessPiece,
    color: ChessColor,
    position: u64,
    ri1: int,
    j1: int,
    ri2: int,
    j2: int,
)
    requires
        position < 64,
        0 <= ri1 < piece_rays(piece, color).len(),
        0 <= j1 < piece_rays(piece, color)[ri1].len(),
        0 <= ri2 < piece_rays(piece, color).len(),
        0 <= j2 < piece_rays(piece, color)[ri2].len(),
        ray_step_on_board(piece, color, position, ri1, j1),
        ray_step_on_board(piece, color, position, ri2, j2),
        ray_step_square(piece, color, position, ri1, j1) == ray_step_square(
            piece,
            color,
            position,
            ri2,
            j2,
        ),
    ensures
        ri1 == ri2 && j1 == j2,
{
    crate::coords::lemma_square_coords_roundtrip();
    crate::catalog::lemma_piece_rays_shape(piece, color);
    let o1 = piece_rays(piece, color)[ri1][j1];
    let o2 = piece_rays(piece, color)[ri2][j2];
    assert(pos_col(position) + o1.0 == pos_col(position) + o2.0 && pos_row(position) + o1.1
        == pos_row(position) + o2.1);
    assert(o1 == o2);
}

/// A blocker square that stops a ray is still threatened: if the steps
/// before it are on the board and unoccupied and the blocker's step is on
/// the board, the blocker's square is in the threat result.
pub proof fn lemma_threat_includes_blocker(
    piece: ChessPiece,
    color: ChessColor,
    position: u64,
    other_pieces: u64,
    ri: int,
    j: int,
)
    requires
        position < 64,
        0 <= ri < piece_rays(piece, color).len(),
        0 <= j < piece_rays(piece, color)[ri].len(),
        free_prefix(
            piece_rays(piece, color)[ri],
            pos_col(position),
            pos_row(position),
            other_pieces,
            j,
        ),
        ray_step_on_board(piece, color, position, ri, j),
        bit_set(other_pieces, ray_step_square(piece, color, position, ri, j) as u64),
    ensures
        bit_set(
            attack_spaces(piece, color, position, other_pieces, true),
            ray_step_square(piece, color, position, ri, j) as u64,
        ),
{
    lemma_walk_rays_covers(
        piece_rays(piece, color),
        pos_col(position),
        pos_row(position),
        other_pieces,
        true,
        ri,
        j,
    );
}

/// An occupied on-board square of a ray is never a move destination: the
/// move result excludes every blocker square.
pub proof fn lemma_move_excludes_blocker(
    piece: ChessPiece,
    color: ChessColor,
    position: u64,
    other_pieces: u64,
    ri: int,
    j: int,
)
    requires
        position < 64,
        0 <= ri < piece_rays(piece, color).len(),
        0 <= j < piece_rays(piece, color)[ri].len(),
        ray_step_on_board(piece, color, position, ri, j),
        bit_set(other_pieces, ray_step_square(piece, color, position, ri, j) as u64),
    ensures
        !bit_set(
            attack_spaces(piece, color, position, other_pieces, false),
            ray_step_square(piece, color, position, ri, j) as u64,
        ),
{
    let rays = piece_rays(piece, color);
    let col = pos_col(position);
    let row = pos_row(position);
    let s: u64 = ray_step_square(piece, color, position, ri, j) as u64;
    crate::coords::lemma_square_coords_roundtrip();
    if bit_set(attack_spaces(piece, color, position, other_pieces, false), s) {
        lemma_walk_rays_bits(rays, col, row, other_pieces, false, s);
        let (ri2, j2): (int, int) = choose|ri2: int, j2: int|
            0 <= ri2 < rays.len() && #[trigger] ray_reaches(
                rays[ri2],
                col,
                row,
                other_pieces,
                false,
                j2,
            ) && square_of(col + rays[ri2][j2].0, row + rays[ri2][j2].1) == s;
        lemma_square_determines_step(piece, color, position, ri, j, ri2, j2);
        assert(false);
    }
}

/// Rays never jump a blocker: once a ray's step `j` is occupied, no later
/// on-board step of the same ray is in the result, under either semantics.
pub proof fn lemma_no_jump_past_blocker(
    piece: ChessPiece,
    color: ChessColor,
    position: u64,
    other_pieces: u64,
    include_piece_spaces: bool,
    ri: int,
    j: int,
    k: int,
)
    requires
        position < 64,
        0 <= ri < piece_rays(piece, color).len(),
        0 <= j < k < piece_rays(piece, color)[ri].len(),
        ray_step_on_board(piece, color, position, ri, j),
        bit_set(other_pieces, ray_step_square(piece, color, position, ri, j) as u64),
        ray_step_on_board(piece, color, position, ri, k),
    ensures
        !bit_set(
            attack_spaces(piece, color, position, other_pieces, include_piece_spaces),
            ray_step_square(piece, color, position, ri, k) as u64,
        ),
{
    let rays = piece_rays(piece, color);
    let col = pos_col(position);
    let row = pos_row(position);
    let s: u64 = ray_step_square(piece, color, position, ri, k) as u64;
    crate::coords::lemma_square_coords_roundtrip();
    if bit_set(attack_spaces(piece, color, position, other_pieces, include_piece_spaces), s) {
        lemma_walk_rays_bits(rays, col, row, other_pieces, include_piece_spaces, s);
        let (ri2, j2): (int, int) = choose|ri2: int, j2: int|
            0 <= ri2 < rays.len() && #[trigger] ray_reaches(
                rays[ri2],
                col,
                row,
                other_pieces,
                include_piece_spaces,
                j2,
            ) && square_of(col + rays[ri2][j2].0, row + rays[ri2][j2].1) == s;
        lemma_square_determines_step(piece, color, position, ri, k, ri2, j2);
        assert(free_prefix(rays[ri], col, row, other_pieces, k));
        assert(!bit_set(other_pieces, square_of(col + rays[ri][j].0, row + rays[ri][j].1) as u64));
        assert(false);
    }
}

/// A single-step piece's results never depend on the occupancy except
/// through the flag: the threat result is always the footprint, and the
/// move result is the footprint minus the occupied squares.
pub proof fn lemma_single_step_occupancy(
    piece: ChessPiece,
    color: ChessColor,
    position: u64,
    other_pieces: u64,
)
    requires
        position < 64,
        piece is Pawn || piece is Knight || piece is King,
    ensures
        attack_spaces(piece, color, position, other_pieces, true) == footprint(
            piece,
            color,
            position,
        ),
        attack_spaces(piece, color, position, other_pieces, false) == (footprint(
            piece,
            color,
            position,
        ) & !other_pieces),
{
    let rays = piece_rays(piece, color);
    let col = pos_col(position);
    let row = pos_row(position);
    crate::catalog::lemma_piece_rays_shape(piece, color);
    crate::coords::lemma_square_coords_roundtrip();
    let threat = attack_spaces(piece, color, position, other_pieces, true);
    let moves = attack_spaces(piece, color, position, other_pieces, false);
    let fp = footprint(piece, color, position);
    assert forall|s: u64| bit_set(threat, s) == bit_set(fp, s) by {
        if bit_set(threat, s) {
            lemma_walk_rays_bits(rays, col, row, other_pieces, true, s);
            let (ri, j): (int, int) = choose|ri: int, j: int|
                0 <= ri < rays.len() && #[trigger] ray_reaches(
                    rays[ri],
                    col,
                    row,
                    other_pieces,
                    true,
                    j,
                ) && square_of(col + rays[ri][j].0, row + rays[ri][j].1) == s;
            assert(j == 0);
            assert(ray_reaches(rays[ri], col, row, 0u64, true, 0));
            lemma_walk_rays_covers(rays, col, row, 0u64, true, ri, 0);
        }
        if bit_set(fp, s) {
            lemma_walk_rays_bits(rays, col, row, 0u64, true, s);
            let (ri, j): (int, int) = choose|ri: int, j: int|
                0 <= ri < rays.len() && #[trigger] ray_reaches(
                    rays[ri],
                    col,
                    row,
                    0u64,
                    true,
                    j,
                ) && square_of(col + rays[ri][j].0, row + rays[ri][j].1) == s;
            assert(j == 0);
            assert(ray_reaches(rays[ri], col, row, other_pieces, true, 0));
            lemma_walk_rays_covers(rays, col, row, other_pieces, true, ri, 0);
        }
    }
    crate::bits::lemma_bit_ext(threat, fp);
    assert forall|s: u64| bit_set(moves, s) == (bit_set(fp, s) && !bit_set(other_pieces, s)) by {
        if bit_set(moves, s) {
            lemma_walk_rays_bits(rays, col, row, other_pieces, false, s);
            let (ri, j): (int, int) = choose|ri: int, j: int|
                0 <= ri < rays.len() && #[trigger] ray_reaches(
                    rays[ri],
                    col,
                    row,
                    other_pieces,
                    false,
                    j,
                ) && square_of(col + rays[ri][j].0, row + rays[ri][j].1) == s;
            assert(j == 0);
            assert(ray_reaches(rays[ri], col, row, 0u64, true, 0));
            lemma_walk_rays_covers(rays, col, row, 0u64, true, ri, 0);
            assert(!bit_set(other_pieces, s));
        }
        if bit_set(fp, s) && !bit_set(other_pieces, s) {
            lemma_walk_rays_bits(rays, col, row, 0u64, true, s);
            let (ri, j): (int, int) = choose|ri: int, j: int|
                0 <= ri < rays.len() && #[trigger] ray_reaches(
                    rays[ri],
                    col,
                    row,
                    0u64,
                    true,
                    j,
                ) && square_of(col + rays[ri][j].0, row + rays[ri][j].1) == s;
            assert(j == 0);
            assert(ray_reaches(rays[ri], col, row, other_pieces, false, 0));
            lemma_walk_rays_covers(rays, col, row, other_pieces, false, ri, 0);
        }
        crate::bits::lemma_bit_andnot(fp, other_pieces, s);
    }
    assert forall|s: u64| bit_set(moves, s) == bit_set((fp & !other_pieces), s) by {
        crate::bits::lemma_bit_andnot(fp, other_pieces, s);
    }
    crate::bits::lemma_bit_ext(moves, (fp & !other_pieces));
}

/// Walks one ray from (col, row), accumulating the squares it contributes.
fn walk_ray_spaces(
    ray: &Vec<(i32, i32)>,
    col: i64,
    row: i64,
    other_pieces: u64,
    include_piece_spaces: bool,
) -> (res: u64)
    requires
        0 <= col < 8,
        0 <= row < 8,
    ensures
        res == walk_ray(ray@, col as int, row as int, other_pieces, include_piece_spaces),
{
    let ghost colg: int = col as int;
    let ghost rowg: int = row as int;
    let mut res: u64 = 0;
    let mut j: usize = 0;
    let n: usize = ray.len();
    proof {
        assert(ray@.skip(0) =~= ray@);
        crate::bits::lemma_bit_zero(
            walk_ray(ray@, colg, rowg, other_pieces, include_piece_spaces),
            0u64,
        );
    }
    while j < n
        invariant
            0 <= col < 8,
            0 <= row < 8,
            colg == col as int,
            rowg == row as int,
            j <= n,
            n == ray@.len(),
            walk_ray(ray@, colg, rowg, other_pieces, include_piece_spaces) == (res | walk_ray(
                ray@.skip(j as int),
                colg,
                rowg,
                other_pieces,
                include_piece_spaces,
            )),
        decreases n - j,
    {
        let ghost tail: Seq<(i32, i32)> = ray@.skip(j as int);
        proof {
            reveal_with_fuel(walk_ray, 2);
            assert(tail.len() == n - j);
            assert(tail[0] == ray@[j as int]);
            assert(tail.drop_first() =~= ray@.skip(j as int + 1));
        }
        let (dc, dr) = ray[j];
        let c: i64 = col + (dc as i64);
        let r: i64 = row + (dr as i64);
        if c < 0 || c > 7 || r < 0 || r > 7 {
            proof {
                assert(walk_ray(tail, colg, rowg, other_pieces, include_piece_spaces) == 0u64);
                crate::bits::lemma_bit_zero(res, 0u64);
            }
            return res;
        }
        let square: u64 = (r * 8 + c) as u64;
        let bit: u64 = 1u64 << square;
        proof {
            assert(square_of(colg + tail[0].0, rowg + tail[0].1) == square);
            crate::bits::lemma_single_bit_test(other_pieces, square);
        }
        if !include_piece_spaces && (bit & other_pieces > 0) {
            proof {
                assert(walk_ray(tail, colg, rowg, other_pieces, include_piece_spaces) == 0u64);
                crate::bits::lemma_bit_zero(res, 0u64);
            }
            return res;
        }
        let ghost res0: u64 = res;
        res = res | bit;
        if bit & other_pieces > 0 {
            proof {
                assert(walk_ray(tail, colg, rowg, other_pieces, include_piece_spaces) == bit);
            }
            return res;
        }
        proof {
            assert(walk_ray(tail, colg, rowg, other_pieces, include_piece_spaces) == (bit
                | walk_ray(
                tail.drop_first(),
                colg,
                rowg,
                other_pieces,
                include_piece_spaces,
            )));
            crate::bits::lemma_or_assoc(
                res0,
                bit,
                walk_ray(tail.drop_first(), colg, rowg, other_pieces, include_piece_spaces),
            );
        }
        j = j + 1;
    }
    proof {
        assert(ray@.skip(n as int) =~= Seq::<(i32, i32)>::empty());
        crate::bits::lemma_bit_zero(res, 0u64);
    }
    res
}

/// Walks every ray of a catalog from `position` and accumulates the result,
/// under threat (`include_piece_spaces` true) or move (false) semantics.
pub fn generate_threat_or_move_spaces(
    moves: &Vec<Vec<(i32, i32)>>,
    position: u64,
    other_pieces: u64,
    include_piece_spaces: bool,
) -> (res: u64)
    requires
        position < 64,
    ensures
        res == walk_rays(
            cat_view(moves),
            position as int % 8,
            position as int / 8,
            other_pieces,
            include_piece_spaces,
        ),
{
    let ghost rays: Seq<Seq<(i32, i32)>> = cat_view(moves);
    let (col64, row64) = Constants::get_coordinates_from_bit_position(position);
    let col: i64 = col64 as i64;
    let row: i64 = row64 as i64;
    let ghost colg: int = col as int;
    let ghost rowg: int = row as int;
    let mut res: u64 = 0;
    let n: usize = moves.len();
    for ri in 0..n
        invariant
            0 <= col < 8,
            0 <= row < 8,
            colg == col as int,
            rowg == row as int,
            colg == position as int % 8,
            rowg == position as int / 8,
            n == rays.len(),
            rays == cat_view(moves),
            res == walk_rays(
                rays.subrange(0, ri as int),
                colg,
                rowg,
                other_pieces,
                include_piece_spaces,
            ),
    {
        let ray_res: u64 = walk_ray_spaces(&moves[ri], col, row, other_pieces, include_piece_spaces);
        proof {
            reveal_with_fuel(walk_rays, 2);
            let prefix = rays.subrange(0, ri as int + 1);
            assert(prefix.drop_last() =~= rays.subrange(0, ri as int));
            assert(prefix.last() == rays[ri as int]);
            assert(rays[ri as int] == moves@[ri as int]@);
            assert(walk_rays(prefix, colg, rowg, other_pieces, include_piece_spaces) == (walk_rays(
                prefix.drop_last(),
                colg,
                rowg,
                other_pieces,
                include_piece_spaces,
            ) | walk_ray(prefix.last(), colg, rowg, other_pieces, include_piece_spaces)));
        }
        res = res | ray_res;
    }
    proof {
        assert(rays.subrange(0, n as int) =~= rays);
    }
    res
}

impl Constants {
    /// The threat or move bitboard of a piece: its catalog walked from
    /// `position` against the occupancy `other_pieces`, counting blocker
    /// squares exactly when `include_piece_spaces` is set.
    pub fn get_threat_and_move_spaces(
        piece: ChessPiece,
        color: ChessColor,
        position: u64,
        other_pieces: u64,
        include_piece_spaces: bool,
    ) -> (res: u64)
        requires
            position < 64,
        ensures
            res == attack_spaces(piece, color, position, other_pieces, include_piece_spaces),
    {
        let moves: Vec<Vec<(i32, i32)>> = Self::get_piece_moves(piece, color);
        generate_threat_or_move_spaces(&moves, position, other_pieces, include_piece_spaces)
    }
}

} // verus!
