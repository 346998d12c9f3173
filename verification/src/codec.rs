//! The board's snapshot: a textual, line-structured encoding with one byte
//! for the highlight flag, then for each row a newline followed by two bytes
//! per cell (roon tag, ball flag). Encoding and decoding are proved to be
//! inverses for well-formed boards.

use crate::grid::{Cell, Loom, Roon, Row, SIDE};
use vstd::prelude::*;

verus! {

/// Total length in bytes of a snapshot: the flag byte, then `SIDE` rows of a
/// newline and two bytes per cell.
pub const SNAPSHOT_LEN: usize = 2081;

/// The byte `'1'`: the highlight flag is set.
pub const B_ONE: u8 = 49;

/// The byte `'0'`: the highlight flag is clear.
pub const B_ZERO: u8 = 48;

/// The byte `'\n'` that opens each encoded row.
pub const B_NEWLINE: u8 = 10;

/// The byte `'U'` for an upward roon.
pub const B_UP: u8 = 85;

/// The byte `'D'` for a downward roon.
pub const B_DOWN: u8 = 68;

/// The byte `'L'` for a leftward roon.
pub const B_LEFT: u8 = 76;

/// The byte `'R'` for a rightward roon.
pub const B_RIGHT: u8 = 82;

/// The byte `'.'` for a cell without a roon.
pub const B_NOP: u8 = 46;

/// The byte `'o'` for a cell anchoring a ball.
pub const B_BALL: u8 = 111;

/// The byte `'-'` for a cell not anchoring a ball.
pub const B_EMPTY: u8 = 45;

/// The byte that encodes a roon tag.
pub open spec fn roon_byte(r: Roon) -> u8 {
    match r {
        Roon::Up => B_UP,
        Roon::Down => B_DOWN,
        Roon::Left => B_LEFT,
        Roon::Right => B_RIGHT,
        Roon::Nop => B_NOP,
    }
}

/// Whether a byte encodes some roon tag.
pub open spec fn valid_roon_byte(b: u8) -> bool {
    b == B_UP || b == B_DOWN || b == B_LEFT || b == B_RIGHT || b == B_NOP
}

/// The roon tag a byte decodes to.
pub open spec fn roon_of_byte(b: u8) -> Roon {
    if b == B_UP {
        Roon::Up
    } else if b == B_DOWN {
        Roon::Down
    } else if b == B_LEFT {
        Roon::Left
    } else if b == B_RIGHT {
        Roon::Right
    } else {
        Roon::Nop
    }
}

/// The byte that encodes a ball flag.
pub open spec fn ball_byte(b: bool) -> u8 {
    if b {
        B_BALL
    } else {
        B_EMPTY
    }
}

/// Whether a byte encodes some ball flag.
pub open spec fn valid_ball_byte(b: u8) -> bool {
    b == B_BALL || b == B_EMPTY
}

/// Offset of the newline that opens row `r`.
pub open spec fn row_start(r: int) -> int {
    1 + 65 * r
}

/// Offset of the two bytes that encode the cell at row `r`, column `c`.
pub open spec fn cell_pos(r: int, c: int) -> int {
    2 + 65 * r + 2 * c
}

/// The two bytes at the cell position for row `r`, column `c` of `b` are a
/// valid tag byte followed by a valid flag byte.
pub open spec fn cell_bytes_valid(b: Seq<u8>, r: int, c: int) -> bool {
    valid_roon_byte(b[cell_pos(r, c)]) && valid_ball_byte(b[cell_pos(r, c) + 1])
}

/// The two bytes at the cell position for row `r`, column `c` of `b` encode
/// the cell the board `loom` holds there.
pub open spec fn cell_encoded(b: Seq<u8>, loom: Loom, r: int, c: int) -> bool {
    b[cell_pos(r, c)] == roon_byte(loom.cell_at(r, c).roon) && b[cell_pos(r, c) + 1] == ball_byte(
        loom.cell_at(r, c).ball,
    )
}

/// Whether `b` is a well-formed snapshot: the right length, a highlight
/// flag of `0` or `1`, a newline opening each row, and a valid tag byte and
/// flag byte for each cell.
pub open spec fn valid_snapshot(b: Seq<u8>) -> bool {
    &&& b.len() == SNAPSHOT_LEN
    &&& (b[0] == B_ZERO || b[0] == B_ONE)
    &&& forall|r: int| 0 <= r < SIDE ==> #[trigger] b[row_start(r)] == B_NEWLINE
    &&& forall|r: int, c: int| 0 <= r < SIDE && 0 <= c < SIDE ==> #[trigger] cell_bytes_valid(b, r, c)
}

/// The highlight flag a snapshot decodes to.
pub open spec fn snapshot_active(b: Seq<u8>) -> bool {
    b[0] == B_ONE
}

/// The cell at row `r`, column `c` a snapshot decodes to.
pub open spec fn snapshot_cell(b: Seq<u8>, r: int, c: int) -> Cell {
    Cell { roon: roon_of_byte(b[cell_pos(r, c)]), ball: b[cell_pos(r, c) + 1] == B_BALL }
}

/// Whether the bytes `b` are the snapshot of the board `loom`.
pub open spec fn encodes(b: Seq<u8>, loom: Loom) -> bool {
    &&& valid_snapshot(b)
    &&& snapshot_active(b) == loom.active
    &&& forall|r: int, c: int|
        0 <= r < SIDE && 0 <= c < SIDE ==> #[trigger] snapshot_cell(b, r, c) == loom.cell_at(r, c)
}

/// A cell's two bytes decode back to the cell they were written from.
proof fn lemma_cell_bytes_invert(cell: Cell)
    ensures
        roon_of_byte(roon_byte(cell.roon)) == cell.roon,
        (ball_byte(cell.ball) == B_BALL) == cell.ball,
        valid_roon_byte(roon_byte(cell.roon)),
        valid_ball_byte(ball_byte(cell.ball)),
{
}

/// Writes the snapshot of a well-formed board.
#[verifier::loop_isolation(false)]
#[verifier::rlimit(50)]
pub fn encode(loom: &Loom) -> (out: Vec<u8>)
    requires
        loom.wf(),
    ensures
        encodes(out@, *loom),
{
    let mut out: Vec<u8> = Vec::new();
    if loom.active {
        out.push(B_ONE);
    } else {
        out.push(B_ZERO);
    }
    let mut r: usize = 0;
    while r < SIDE
        invariant
            r <= SIDE,
            out@.len() == row_start(r as int),
            out@[0] == (if loom.active {
                B_ONE
            } else {
                B_ZERO
            }),
            forall|i: int| 0 <= i < r ==> #[trigger] out@[row_start(i)] == B_NEWLINE,
            forall|i: int, c: int|
                0 <= i < r && 0 <= c < SIDE ==> #[trigger] cell_encoded(out@, *loom, i, c),
        decreases SIDE - r,
    {
        let ghost pre_row = out@;
        out.push(B_NEWLINE);
        proof {
            assert forall|i: int, c: int|
                0 <= i < r && 0 <= c < SIDE implies #[trigger] cell_encoded(
                out@,
                *loom,
                i,
                c,
            ) by {
                assert(cell_encoded(pre_row, *loom, i, c));
                assert(cell_pos(i, c) + 1 < pre_row.len());
            }
        }
        let mut c: usize = 0;
        while c < SIDE
            invariant
                c <= SIDE,
                out@.len() == cell_pos(r as int, c as int),
                out@[0] == (if loom.active {
                    B_ONE
                } else {
                    B_ZERO
                }),
                forall|i: int| 0 <= i <= r ==> #[trigger] out@[row_start(i)] == B_NEWLINE,
                forall|i: int, cc: int|
                    0 <= i < SIDE && 0 <= cc < SIDE && (i < r || (i == r && cc < c))
                        ==> #[trigger] cell_encoded(out@, *loom, i, cc),
            decreases SIDE - c,
        {
            let ghost pre = out@;
            let cell = loom.cell(r, c);
            match cell.roon {
                Roon::Up => out.push(B_UP),
                Roon::Down => out.push(B_DOWN),
                Roon::Left => out.push(B_LEFT),
                Roon::Right => out.push(B_RIGHT),
                Roon::Nop => out.push(B_NOP),
            }
            if cell.ball {
                out.push(B_BALL);
            } else {
                out.push(B_EMPTY);
            }
            proof {
                assert(out@.len() == pre.len() + 2);
                assert(out@[pre.len() as int] == roon_byte(cell.roon));
                assert(out@[pre.len() as int + 1] == ball_byte(cell.ball));
                assert forall|i: int, cc: int|
                    0 <= i < SIDE && 0 <= cc < SIDE && (i < r || (i == r && cc < c
                        + 1)) implies #[trigger] cell_encoded(out@, *loom, i, cc) by {
                    if i == r && cc == c {
                        assert(cell_pos(i, cc) == pre.len());
                    } else {
                        assert(cell_encoded(pre, *loom, i, cc));
                        assert(cell_pos(i, cc) + 1 < pre.len());
                        assert(out@[cell_pos(i, cc)] == pre[cell_pos(i, cc)]);
                        assert(out@[cell_pos(i, cc) + 1] == pre[cell_pos(i, cc) + 1]);
                    }
                }
            }
            c = c + 1;
        }
        r = r + 1;
    }
    proof {
        assert forall|i: int, c: int|
            0 <= i < SIDE && 0 <= c < SIDE implies #[trigger] cell_bytes_valid(out@, i, c) by {
            assert(cell_encoded(out@, *loom, i, c));
            lemma_cell_bytes_invert(loom.cell_at(i, c));
        }
        assert forall|i: int, c: int|
            0 <= i < SIDE && 0 <= c < SIDE implies #[trigger] snapshot_cell(out@, i, c)
                == loom.cell_at(i, c) by {
            assert(cell_encoded(out@, *loom, i, c));
            lemma_cell_bytes_invert(loom.cell_at(i, c));
        }
    }
    out
}

/// Reads a snapshot back into a board. Returns `None` exactly on malformed
/// bytes; a well-formed snapshot yields the board it encodes.
#[verifier::loop_isolation(false)]
#[verifier::rlimit(50)]
pub fn decode(bytes: &Vec<u8>) -> (res: Option<Loom>)
    ensures
        res is Some <==> valid_snapshot(bytes@),
        res matches Some(l) ==> l.wf() && encodes(bytes@, l),
{
    if bytes.len() != SNAPSHOT_LEN {
        return None;
    }
    let active: bool;
    if bytes[0] == B_ONE {
        active = true;
    } else if bytes[0] == B_ZERO {
        active = false;
    } else {
        return None;
    }
    let mut rows: Vec<Row> = Vec::new();
    let mut r: usize = 0;
    while r < SIDE
        invariant
            r <= SIDE,
            rows@.len() == r,
            forall|i: int| 0 <= i < r ==> #[trigger] bytes@[row_start(i)] == B_NEWLINE,
            forall|i: int, c: int|
                0 <= i < r && 0 <= c < SIDE ==> #[trigger] cell_bytes_valid(bytes@, i, c),
            forall|i: int| 0 <= i < r ==> (#[trigger] rows@[i]).wf(),
            forall|i: int, c: int|
                0 <= i < r && 0 <= c < SIDE ==> #[trigger] rows@[i].cells@[c] == snapshot_cell(
                    bytes@,
                    i,
                    c,
                ),
        decreases SIDE - r,
    {
        if bytes[1 + 65 * r] != B_NEWLINE {
            proof {
                assert(bytes@[row_start(r as int)] != B_NEWLINE);
            }
            return None;
        }
        let mut cells: Vec<Cell> = Vec::new();
        let mut c: usize = 0;
        while c < SIDE
            invariant
                c <= SIDE,
                cells@.len() == c,
                forall|j: int| 0 <= j < c ==> #[trigger] cell_bytes_valid(bytes@, r as int, j),
                forall|j: int|
                    0 <= j < c ==> #[trigger] cells@[j] == snapshot_cell(bytes@, r as int, j),
            decreases SIDE - c,
        {
            let p = 2 + 65 * r + 2 * c;
            proof {
                assert(p as int == cell_pos(r as int, c as int));
            }
            let rb = bytes[p];
            let roon = if rb == B_UP {
                Roon::Up
            } else if rb == B_DOWN {
                Roon::Down
            } else if rb == B_LEFT {
                Roon::Left
            } else if rb == B_RIGHT {
                Roon::Right
            } else if rb == B_NOP {
                Roon::Nop
            } else {
                proof {
                    assert(!cell_bytes_valid(bytes@, r as int, c as int));
                }
                return None;
            };
            let bb = bytes[p + 1];
            let ball = if bb == B_BALL {
                true
            } else if bb == B_EMPTY {
                false
            } else {
                proof {
                    assert(!cell_bytes_valid(bytes@, r as int, c as int));
                }
                return None;
            };
            proof {
                assert(cell_bytes_valid(bytes@, r as int, c as int));
                assert(Cell { roon, ball } == snapshot_cell(bytes@, r as int, c as int));
            }
            cells.push(Cell { roon, ball });
            c = c + 1;
        }
        rows.push(Row { cells });
        proof {
            assert forall|i: int, cc: int|
                0 <= i < r + 1 && 0 <= cc < SIDE implies #[trigger] cell_bytes_valid(
                bytes@,
                i,
                cc,
            ) by {
                if i == r {
                    assert(cell_bytes_valid(bytes@, r as int, cc));
                }
            }
            assert forall|i: int, cc: int|
                0 <= i < r + 1 && 0 <= cc < SIDE implies (#[trigger] rows@[i].cells@[cc])
                    == snapshot_cell(bytes@, i, cc) by {
                if i == r {
                    assert(rows@[r as int].cells@[cc] == snapshot_cell(bytes@, r as int, cc));
                }
            }
        }
        r = r + 1;
    }
    let l = Loom { rows, active };
    proof {
        assert(valid_snapshot(bytes@));
        assert(encodes(bytes@, l));
    }
    Some(l)
}

/// Round-trip identity: two well-formed boards with the same snapshot have
/// the same grid, cell for cell in roon tag and ball flag, and the same
/// highlight flag. With the contracts of `encode` and `decode` this says
/// that decoding what `encode` wrote gives back the board it was written
/// from.
pub proof fn lemma_snapshot_round_trip(a: Loom, b: Loom, s: Seq<u8>)
    requires
        a.wf(),
        b.wf(),
        encodes(s, a),
        encodes(s, b),
    ensures
        a.grid() == b.grid(),
        a.active == b.active,
{
    assert forall|r: int| 0 <= r < SIDE implies a.grid()[r] =~= b.grid()[r] by {
        assert forall|c: int| 0 <= c < SIDE implies a.grid()[r][c] == b.grid()[r][c] by {
            assert(snapshot_cell(s, r, c) == a.cell_at(r, c));
            assert(snapshot_cell(s, r, c) == b.cell_at(r, c));
        }
    }
    assert(a.grid() =~= b.grid());
}

} // verus!
