//! The movement catalog: per piece kind (and, for pawns, per color) a fixed
//! sequence of rays, each ray an ordered sequence of relative
//! (column, row) offsets walked from the origin square.

use vstd::prelude::*;
use crate::color::ChessColor;
use crate::constants::Constants;
use crate::piece::ChessPiece;

verus! {

/// A full sliding ray: seven steps in direction (dc, dr).
pub open spec fn sliding_ray(dc: int, dr: int) -> Seq<(i32, i32)> {
    Seq::new(7, |m: int| ((((m + 1) * dc) as i32, ((m + 1) * dr) as i32)))
}

/// The four orthogonal directions, in catalog order.
pub open spec fn rook_dir(r: int) -> (int, int) {
    if r == 0 {
        (1, 0)
    } else if r == 1 {
        (-1, 0)
    } else if r == 2 {
        (0, 1)
    } else {
        (0, -1)
    }
}

/// The four diagonal directions, in catalog order.
pub open spec fn bishop_dir(r: int) -> (int, int) {
    if r == 0 {
        (1, 1)
    } else if r == 1 {
        (-1, 1)
    } else if r == 2 {
        (1, -1)
    } else {
        (-1, -1)
    }
}

/// Orthogonal then diagonal directions.
pub open spec fn queen_dir(r: int) -> (int, int) {
    if r < 4 {
        rook_dir(r)
    } else {
        bishop_dir(r - 4)
    }
}

pub open spec fn rook_rays() -> Seq<Seq<(i32, i32)>> {
    Seq::new(4, |r: int| sliding_ray(rook_dir(r).0, rook_dir(r).1))
}

pub open spec fn bishop_rays() -> Seq<Seq<(i32, i32)>> {
    Seq::new(4, |r: int| sliding_ray(bishop_dir(r).0, bishop_dir(r).1))
}

pub open spec fn queen_rays() -> Seq<Seq<(i32, i32)>> {
    Seq::new(8, |r: int| sliding_ray(queen_dir(r).0, queen_dir(r).1))
}

/// The eight L-shaped knight jumps, in catalog order.
pub open spec fn knight_offset(r: int) -> (i32, i32) {
    if r == 0 {
        (1i32, 2i32)
    } else if r == 1 {
        (2i32, 1i32)
    } else if r == 2 {
        (-1i32, -2i32)
    } else if r == 3 {
        (-2i32, -1i32)
    } else if r == 4 {
        (-1i32, 2i32)
    } else if r == 5 {
        (-2i32, 1i32)
    } else if r == 6 {
        (1i32, -2i32)
    } else {
        (2i32, -1i32)
    }
}

/// The eight adjacent king steps, in catalog order.
pub open spec fn king_offset(r: int) -> (i32, i32) {
    if r == 0 {
        (1i32, 1i32)
    } else if r == 1 {
        (0i32, 1i32)
    } else if r == 2 {
        (-1i32, 1i32)
    } else if r == 3 {
        (-1i32, 0i32)
    } else if r == 4 {
        (-1i32, -1i32)
    } else if r == 5 {
        (0i32, -1i32)
    } else if r == 6 {
        (1i32, -1i32)
    } else {
        (1i32, 0i32)
    }
}

pub open spec fn knight_rays() -> Seq<Seq<(i32, i32)>> {
    Seq::new(8, |r: int| seq![knight_offset(r)])
}

pub open spec fn king_rays() -> Seq<Seq<(i32, i32)>> {
    Seq::new(8, |r: int| seq![king_offset(r)])
}

/// The two diagonal capture steps of a pawn, toward increasing rows for
/// White and decreasing rows for Black.
pub open spec fn pawn_rays(c: ChessColor) -> Seq<Seq<(i32, i32)>> {
    match c {
        ChessColor::White => seq![seq![(1i32, 1i32)], seq![(-1i32, 1i32)]],
        ChessColor::Black => seq![seq![(1i32, -1i32)], seq![(-1i32, -1i32)]],
    }
}

/// The catalog of a piece kind for a color.  Only the pawn catalog depends
/// on the color.
pub open spec fn piece_rays(p: ChessPiece, c: ChessColor) -> Seq<Seq<(i32, i32)>> {
    match p {
        ChessPiece::Pawn => pawn_rays(c),
        ChessPiece::Rook => rook_rays(),
        ChessPiece::Knight => knight_rays(),
        ChessPiece::Bishop => bishop_rays(),
        ChessPiece::Queen => queen_rays(),
        ChessPiece::King => king_rays(),
    }
}

/// The mathematical catalog held by an executable catalog vector.
pub open spec fn cat_view(v: &Vec<Vec<(i32, i32)>>) -> Seq<Seq<(i32, i32)>> {
    v@.map_values(|ray: Vec<(i32, i32)>| ray@)
}

/// No offset appears twice anywhere in a catalog: two different (ray, step)
/// places always name different relative offsets.
pub open spec fn separated(rays: Seq<Seq<(i32, i32)>>) -> bool {
    forall|r1: int, j1: int, r2: int, j2: int|
        0 <= r1 < rays.len() && 0 <= j1 < rays[r1].len() && 0 <= r2 < rays.len() && 0 <= j2
            < rays[r2].len() && (r1 != r2 || j1 != j2) ==> #[trigger] rays[r1][j1] != #[trigger] rays[r2][j2]
}

/// Every ray of the catalog is a single step.
pub open spec fn single_step(rays: Seq<Seq<(i32, i32)>>) -> bool {
    forall|r: int| 0 <= r < rays.len() ==> #[trigger] rays[r].len() == 1
}

/// A unit direction: both components in {-1, 0, 1}, not both zero.
pub open spec fn unit_dir(d: (int, int)) -> bool {
    -1 <= d.0 <= 1 && -1 <= d.1 <= 1 && d != (0int, 0int)
}

/// Entries of sliding rays in distinct unit directions, or at distinct
/// steps of one such ray, are distinct offsets.
proof fn lemma_sliding_entries(d1: (int, int), d2: (int, int), j1: int, j2: int)
    requires
        unit_dir(d1),
        unit_dir(d2),
        0 <= j1 < 7,
        0 <= j2 < 7,
        d1 != d2 || j1 != j2,
    ensures
        sliding_ray(d1.0, d1.1)[j1] != sliding_ray(d2.0, d2.1)[j2],
{
    let m1: int = j1 + 1;
    let m2: int = j2 + 1;
    let a1: int = m1 * d1.0;
    let b1: int = m1 * d1.1;
    let a2: int = m2 * d2.0;
    let b2: int = m2 * d2.1;
    assert(-7 <= a1 <= 7 && -7 <= b1 <= 7 && -7 <= a2 <= 7 && -7 <= b2 <= 7) by (nonlinear_arith)
        requires
            1 <= m1 <= 7 && 1 <= m2 <= 7 && -1 <= d1.0 <= 1 && -1 <= d1.1 <= 1 && -1 <= d2.0 <= 1
                && -1 <= d2.1 <= 1 && a1 == m1 * d1.0 && b1 == m1 * d1.1 && a2 == m2 * d2.0 && b2
                == m2 * d2.1,
    ;
    assert(sliding_ray(d1.0, d1.1)[j1] == (a1 as i32, b1 as i32));
    assert(sliding_ray(d2.0, d2.1)[j2] == (a2 as i32, b2 as i32));
    if sliding_ray(d1.0, d1.1)[j1] == sliding_ray(d2.0, d2.1)[j2] {
        assert(a1 == a2 && b1 == b2);
        assert(d1.0 == d2.0) by (nonlinear_arith)
            requires
                1 <= m1 && 1 <= m2 && -1 <= d1.0 <= 1 && -1 <= d2.0 <= 1 && m1 * d1.0 == m2 * d2.0,
        ;
        assert(d1.1 == d2.1) by (nonlinear_arith)
            requires
                1 <= m1 && 1 <= m2 && -1 <= d1.1 <= 1 && -1 <= d2.1 <= 1 && m1 * d1.1 == m2 * d2.1,
        ;
        if d1.0 != 0 {
            assert(m1 == m2) by (nonlinear_arith)
                requires
                    m1 * d1.0 == m2 * d2.0 && d1.0 == d2.0 && d1.0 != 0,
            ;
        } else {
            assert(d1.1 != 0);
            assert(m1 == m2) by (nonlinear_arith)
                requires
                    m1 * d1.1 == m2 * d2.1 && d1.1 == d2.1 && d1.1 != 0,
            ;
        }
        assert(false);
    }
}

/// Every piece catalog is separated, and the catalogs of the single-step
/// pieces (pawn, knight, king) are single-step.
pub proof fn lemma_piece_rays_shape(p: ChessPiece, c: ChessColor)
    ensures
        separated(piece_rays(p, c)),
        p is Pawn || p is Knight || p is King ==> single_step(piece_rays(p, c)),
{
    let rays = piece_rays(p, c);
    match p {
        ChessPiece::Pawn => {
            assert(separated(rays));
        },
        ChessPiece::Knight => {
            assert(separated(rays));
        },
        ChessPiece::King => {
            assert(separated(rays));
        },
        ChessPiece::Rook => {
            assert forall|r1: int, j1: int, r2: int, j2: int|
                0 <= r1 < rays.len() && 0 <= j1 < rays[r1].len() && 0 <= r2 < rays.len() && 0 <= j2
                    < rays[r2].len() && (r1 != r2 || j1 != j2) implies #[trigger] rays[r1][j1]
                != #[trigger] rays[r2][j2] by {
                lemma_sliding_entries(rook_dir(r1), rook_dir(r2), j1, j2);
            }
        },
        ChessPiece::Bishop => {
            assert forall|r1: int, j1: int, r2: int, j2: int|
                0 <= r1 < rays.len() && 0 <= j1 < rays[r1].len() && 0 <= r2 < rays.len() && 0 <= j2
                    < rays[r2].len() && (r1 != r2 || j1 != j2) implies #[trigger] rays[r1][j1]
                != #[trigger] rays[r2][j2] by {
                lemma_sliding_entries(bishop_dir(r1), bishop_dir(r2), j1, j2);
            }
        },
        ChessPiece::Queen => {
            assert forall|r1: int, j1: int, r2: int, j2: int|
                0 <= r1 < rays.len() && 0 <= j1 < rays[r1].len() && 0 <= r2 < rays.len() && 0 <= j2
                    < rays[r2].len() && (r1 != r2 || j1 != j2) implies #[trigger] rays[r1][j1]
                != #[trigger] rays[r2][j2] by {
                lemma_sliding_entries(queen_dir(r1), queen_dir(r2), j1, j2);
            }
        },
    }
}

/// Builds the seven steps of one sliding ray.
fn make_sliding_ray(dc: i32, dr: i32) -> (ray: Vec<(i32, i32)>)
    requires
        -1 <= dc <= 1,
        -1 <= dr <= 1,
    ensures
        ray@ == sliding_ray(dc as int, dr as int),
{
    let mut ray: Vec<(i32, i32)> = Vec::new();
    for m in 0..7usize
        invariant
            ray@.len() == m,
            forall|k: int| 0 <= k < m ==> ray@[k] == sliding_ray(dc as int, dr as int)[k],
            -1 <= dc <= 1,
            -1 <= dr <= 1,
    {
        let step: i32 = (m as i32) + 1;
        proof {
            assert(-7 <= step * dc <= 7 && -7 <= step * dr <= 7) by (nonlinear_arith)
                requires
                    1 <= step <= 7 && -1 <= dc <= 1 && -1 <= dr <= 1,
            ;
        }
        ray.push((step * dc, step * dr));
    }
    proof {
        assert(ray@ =~= sliding_ray(dc as int, dr as int));
    }
    ray
}

/// Builds a single-step ray.
fn make_single_step_ray(dc: i32, dr: i32) -> (ray: Vec<(i32, i32)>)
    ensures
        ray@ == seq![(dc, dr)],
{
    let mut ray: Vec<(i32, i32)> = Vec::new();
    ray.push((dc, dr));
    proof {
        assert(ray@ =~= seq![(dc, dr)]);
    }
    ray
}

impl Constants {
    /// The pawn catalog: the two forward-diagonal capture steps for the
    /// color's advance direction.
    pub fn get_pawn_moves(chess_color: ChessColor) -> (moves: Vec<Vec<(i32, i32)>>)
        ensures
            cat_view(&moves) == pawn_rays(chess_color),
    {
        let mut moves: Vec<Vec<(i32, i32)>> = Vec::new();
        match chess_color {
            ChessColor::White => {
                moves.push(make_single_step_ray(1, 1));
                moves.push(make_single_step_ray(-1, 1));
            },
            ChessColor::Black => {
                moves.push(make_single_step_ray(1, -1));
                moves.push(make_single_step_ray(-1, -1));
            },
        }
        proof {
            assert(cat_view(&moves) =~= pawn_rays(chess_color));
        }
        moves
    }

    /// The rook catalog: four orthogonal sliding rays.
    pub fn get_rook_moves(_chess_color: ChessColor) -> (moves: Vec<Vec<(i32, i32)>>)
        ensures
            cat_view(&moves) == rook_rays(),
    {
        let mut moves: Vec<Vec<(i32, i32)>> = Vec::new();
        moves.push(make_sliding_ray(1, 0));
        moves.push(make_sliding_ray(-1, 0));
        moves.push(make_sliding_ray(0, 1));
        moves.push(make_sliding_ray(0, -1));
        proof {
            assert(cat_view(&moves) =~= rook_rays());
        }
        moves
    }

    /// The bishop catalog: four diagonal sliding rays.
    pub fn get_bishop_moves(_chess_color: ChessColor) -> (moves: Vec<Vec<(i32, i32)>>)
        ensures
            cat_view(&moves) == bishop_rays(),
    {
        let mut moves: Vec<Vec<(i32, i32)>> = Vec::new();
        moves.push(make_sliding_ray(1, 1));
        moves.push(make_sliding_ray(-1, 1));
        moves.push(make_sliding_ray(1, -1));
        moves.push(make_sliding_ray(-1, -1));
        proof {
            assert(cat_view(&moves) =~= bishop_rays());
        }
        moves
    }

    /// The knight catalog: eight single-step L-shaped jumps.
    pub fn get_knight_moves(_chess_color: ChessColor) -> (moves: Vec<Vec<(i32, i32)>>)
        ensures
            cat_view(&moves) == knight_rays(),
    {
        let mut moves: Vec<Vec<(i32, i32)>> = Vec::new();
        moves.push(make_single_step_ray(1, 2));
        moves.push(make_single_step_ray(2, 1));
        moves.push(make_single_step_ray(-1, -2));
        moves.push(make_single_step_ray(-2, -1));
        moves.push(make_single_step_ray(-1, 2));
        moves.push(make_single_step_ray(-2, 1));
        moves.push(make_single_step_ray(1, -2));
        moves.push(make_single_step_ray(2, -1));
        proof {
            assert(cat_view(&moves) =~= knight_rays());
        }
        moves
    }

    /// The king catalog: eight single-step rays, one per adjacent square.
    pub fn get_king_moves(_chess_color: ChessColor) -> (moves: Vec<Vec<(i32, i32)>>)
        ensures
            cat_view(&moves) == king_rays(),
    {
        let mut moves: Vec<Vec<(i32, i32)>> = Vec::new();
        moves.push(make_single_step_ray(1, 1));
        moves.push(make_single_step_ray(0, 1));
        moves.push(make_single_step_ray(-1, 1));
        moves.push(make_single_step_ray(-1, 0));
        moves.push(make_single_step_ray(-1, -1));
        moves.push(make_single_step_ray(0, -1));
        moves.push(make_single_step_ray(1, -1));
        moves.push(make_single_step_ray(1, 0));
        proof {
            assert(cat_view(&moves) =~= king_rays());
        }
        moves
    }

    /// The catalog of any piece kind; the queen's is the rook's and the
    /// bishop's rays together.
    pub fn get_piece_moves(piece: ChessPiece, chess_color: ChessColor) -> (moves: Vec<
        Vec<(i32, i32)>,
    >)
        ensures
            cat_view(&moves) == piece_rays(piece, chess_color),
    {
        match piece {
            ChessPiece::Pawn => Self::get_pawn_moves(chess_color),
            ChessPiece::Rook => Self::get_rook_moves(chess_color),
            ChessPiece::Knight => Self::get_knight_moves(chess_color),
            ChessPiece::Bishop => Self::get_bishop_moves(chess_color),
            ChessPiece::King => Self::get_king_moves(chess_color),
            ChessPiece::Queen => {
                let mut moves: Vec<Vec<(i32, i32)>> = Vec::new();
                moves.push(make_sliding_ray(1, 0));
                moves.push(make_sliding_ray(-1, 0));
                moves.push(make_sliding_ray(0, 1));
                moves.push(make_sliding_ray(0, -1));
                moves.push(make_sliding_ray(1, 1));
                moves.push(make_sliding_ray(-1, 1));
                moves.push(make_sliding_ray(1, -1));
                moves.push(make_sliding_ray(-1, -1));
                proof {
                    assert(cat_view(&moves) =~= queen_rays());
                }
                moves
            },
        }
    }
}

} // verus!
