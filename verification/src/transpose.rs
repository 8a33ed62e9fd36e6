//! Transposition of a row-major matrix held as raw bytes.

use vstd::arithmetic::div_mod::{
    lemma_fundamental_div_mod, lemma_fundamental_div_mod_converse, lemma_mod_bound,
};
use vstd::prelude::*;

verus! {

/// Where byte `byte` of element (`row`, `col`) stands in a row-major matrix with
/// `cols` columns and elements of `width` bytes.
pub open spec fn byte_position(row: int, col: int, cols: int, width: int, byte: int) -> int {
    (row * cols + col) * width + byte
}

/// The row-major transpose of a `rows` by `cols` matrix of `width`-byte
/// elements: byte `b` of its element (`c`, `r`) is byte `b` of element
/// (`r`, `c`).
pub open spec fn transposed(bytes: Seq<u8>, rows: int, cols: int, width: int) -> Seq<u8> {
    Seq::new(
        bytes.len(),
        |at: int|
            bytes[byte_position((at / width) % rows, (at / width) / rows, cols, width, at % width)],
    )
}

/// A position inside the matrix stands before its end, and it is not negative.
pub proof fn lemma_position_bound(row: int, col: int, rows: int, cols: int, width: int, byte: int)
    requires
        0 <= row < rows,
        0 <= col < cols,
        0 <= byte < width,
    ensures
        0 <= row * cols + col < rows * cols,
        0 <= byte_position(row, col, cols, width, byte) < rows * cols * width,
{
    assert(0 <= row * cols) by (nonlinear_arith)
        requires
            0 <= row,
            0 <= col < cols,
    ;
    assert(row * cols + col < rows * cols) by (nonlinear_arith)
        requires
            0 <= row < rows,
            0 <= col < cols,
    ;
    let element = row * cols + col;
    let count = rows * cols;
    assert(element * width + byte < count * width) by (nonlinear_arith)
        requires
            0 <= element < count,
            0 <= byte < width,
    ;
    assert(0 <= element * width) by (nonlinear_arith)
        requires
            0 <= element,
            0 <= byte < width,
    ;
}

/// A position tells which element and which byte it belongs to.
proof fn lemma_position_parts(row: int, col: int, cols: int, width: int, byte: int)
    requires
        0 <= col < cols,
        0 <= byte < width,
    ensures
        byte_position(row, col, cols, width, byte) / width == row * cols + col,
        byte_position(row, col, cols, width, byte) % width == byte,
        (row * cols + col) / cols == row,
        (row * cols + col) % cols == col,
{
    let at = byte_position(row, col, cols, width, byte);
    lemma_fundamental_div_mod_converse(at, width, row * cols + col, byte);
    lemma_fundamental_div_mod_converse(row * cols + col, cols, row, col);
}

/// What transposition does to one element: byte `byte` of element (`col`,
/// `row`) of the transpose is byte `byte` of element (`row`, `col`).
pub proof fn transposed_element(
    bytes: Seq<u8>,
    rows: int,
    cols: int,
    width: int,
    row: int,
    col: int,
    byte: int,
)
    requires
        bytes.len() == rows * cols * width,
        0 <= row < rows,
        0 <= col < cols,
        0 <= byte < width,
    ensures
        0 <= byte_position(col, row, rows, width, byte) < bytes.len(),
        0 <= byte_position(row, col, cols, width, byte) < bytes.len(),
        transposed(bytes, rows, cols, width)[byte_position(col, row, rows, width, byte)]
            == bytes[byte_position(row, col, cols, width, byte)],
{
    lemma_position_bound(col, row, cols, rows, width, byte);
    lemma_position_bound(row, col, rows, cols, width, byte);
    assert(cols * rows == rows * cols) by (nonlinear_arith);
    lemma_position_parts(col, row, rows, width, byte);
}

/// Transposing twice gives the matrix back.
pub proof fn transposing_twice_is_identity(bytes: Seq<u8>, rows: int, cols: int, width: int)
    requires
        0 < rows,
        0 < cols,
        0 < width,
        bytes.len() == rows * cols * width,
    ensures
        transposed(transposed(bytes, rows, cols, width), cols, rows, width) == bytes,
{
    let once = transposed(bytes, rows, cols, width);
    let twice = transposed(once, cols, rows, width);
    assert(cols * rows == rows * cols) by (nonlinear_arith);
    assert forall|at: int| 0 <= at < bytes.len() implies twice[at] == bytes[at] by {
        lemma_position_is_element(at, rows, cols, width);
        let byte = at % width;
        let row = (at / width) / cols;
        let col = (at / width) % cols;
        transposed_element(once, cols, rows, width, col, row, byte);
        transposed_element(bytes, rows, cols, width, row, col, byte);
    }
    assert(twice =~= bytes);
}

/// Every position inside the matrix is that of some byte of some element.
pub proof fn lemma_position_is_element(at: int, rows: int, cols: int, width: int)
    requires
        0 < rows,
        0 < cols,
        0 < width,
        0 <= at < rows * cols * width,
    ensures
        0 <= at % width < width,
        0 <= (at / width) / cols < rows,
        0 <= (at / width) % cols < cols,
        at == byte_position((at / width) / cols, (at / width) % cols, cols, width, at % width),
{
    let element = at / width;
    lemma_fundamental_div_mod(at, width);
    lemma_mod_bound(at, width);
    lemma_fundamental_div_mod(element, cols);
    lemma_mod_bound(element, cols);
    let byte = at % width;
    let row = element / cols;
    let col = element % cols;
    let count = rows * cols;
    assert(0 <= element < count) by (nonlinear_arith)
        requires
            0 < width,
            0 <= at < count * width,
            at == width * element + byte,
            0 <= byte < width,
    ;
    assert(0 <= row < rows) by (nonlinear_arith)
        requires
            0 < cols,
            0 <= element < rows * cols,
            element == cols * row + col,
            0 <= col < cols,
    ;
    assert(width * element == element * width && cols * row == row * cols) by (nonlinear_arith);
}

/// Transposes a row-major `rows` by `cols` matrix of `width`-byte elements.
pub fn transpose_bytes(bytes: &[u8], rows: usize, cols: usize, width: usize) -> (result: Vec<u8>)
    requires
        bytes@.len() == rows * cols * width,
        0 < width,
    ensures
        result@ == transposed(bytes@, rows as int, cols as int, width as int),
{
    let length: usize = bytes.len();
    let mut result: Vec<u8> = Vec::with_capacity(length);
    let ghost goal = transposed(bytes@, rows as int, cols as int, width as int);
    proof {
        assert(cols * rows == rows * cols) by (nonlinear_arith);
        assert(0 * rows == 0) by (nonlinear_arith);
        assert(0 * width == 0) by (nonlinear_arith);
    }
    let mut col: usize = 0;
    while col < cols
        invariant
            bytes@.len() == rows * cols * width,
            length == bytes@.len(),
            cols * rows == rows * cols,
            0 < width,
            col <= cols,
            goal == transposed(bytes@, rows as int, cols as int, width as int),
            result@.len() == col * rows * width,
            result@.len() <= goal.len(),
            forall|k: int| 0 <= k < result@.len() ==> result@[k] == goal[k],
        decreases cols - col,
    {
        let mut row: usize = 0;
        assert((col * rows + 0) * width == col * rows * width);
        while row < rows
            invariant
                bytes@.len() == rows * cols * width,
                length == bytes@.len(),
                cols * rows == rows * cols,
                0 < width,
                col < cols,
                row <= rows,
                goal == transposed(bytes@, rows as int, cols as int, width as int),
                result@.len() == (col * rows + row) * width,
                forall|k: int| 0 <= k < result@.len() ==> result@[k] == goal[k],
            decreases rows - row,
        {
            let mut byte: usize = 0;
            while byte < width
                invariant
                    bytes@.len() == rows * cols * width,
                    length == bytes@.len(),
                    cols * rows == rows * cols,
                    col < cols,
                    row < rows,
                    byte <= width,
                    goal == transposed(bytes@, rows as int, cols as int, width as int),
                    result@.len() == (col * rows + row) * width + byte,
                    forall|k: int| 0 <= k < result@.len() ==> result@[k] == goal[k],
                decreases width - byte,
            {
                proof {
                    transposed_element(
                        bytes@,
                        rows as int,
                        cols as int,
                        width as int,
                        row as int,
                        col as int,
                        byte as int,
                    );
                    lemma_position_bound(
                        row as int,
                        col as int,
                        rows as int,
                        cols as int,
                        width as int,
                        byte as int,
                    );
                    assert(row * cols <= row * cols + col <= (row * cols + col) * width)
                        by (nonlinear_arith)
                        requires
                            0 < width,
                            0 <= row * cols + col,
                            0 <= col,
                    ;
                }
                result.push(bytes[(row * cols + col) * width + byte]);
                byte += 1;
            }
            proof {
                assert((col * rows + row) * width + width == (col * rows + (row + 1)) * width)
                    by (nonlinear_arith);
            }
            row += 1;
        }
        proof {
            assert(col * rows + rows == (col + 1) * rows) by (nonlinear_arith);
            assert((col + 1) * rows * width <= cols * rows * width) by (nonlinear_arith)
                requires
                    col < cols,
                    0 <= rows,
                    0 < width,
            ;
        }
        col += 1;
    }
    assert(result@ =~= goal);
    result
}

} // verus!
