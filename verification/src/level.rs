//! The level map: text rows of decimal digits, one digit per column, each
//! digit the height of a stack of unit cubes.

use vstd::prelude::*;

verus! {

/// The byte that ends a line.
pub const LINE_FEED: u8 = 10;

/// The byte that, directly before a line feed, belongs to the line ending.
pub const CARRIAGE_RETURN: u8 = 13;

/// The byte of the digit zero.
pub const DIGIT_ZERO: u8 = 48;

/// The byte of the digit nine.
pub const DIGIT_NINE: u8 = 57;

/// The largest height a map can give a column.
pub const MAX_HEIGHT: u8 = 9;

/// Whether `b` is an ASCII decimal digit.
pub open spec fn is_digit(b: u8) -> bool {
    DIGIT_ZERO <= b <= DIGIT_NINE
}

/// The number a digit byte stands for.
pub open spec fn digit_value(b: u8) -> u8
    recommends
        is_digit(b),
{
    (b - DIGIT_ZERO) as u8
}

/// The number of bytes before the first line feed of `s`, or its length
/// where it holds none.
pub open spec fn line_len(s: Seq<u8>) -> nat
    decreases s.len(),
{
    if s.len() == 0 || s[0] == LINE_FEED {
        0
    } else {
        1 + line_len(s.skip(1))
    }
}

/// A line's content without the carriage return of a CR LF ending.
pub open spec fn strip_return(line: Seq<u8>) -> Seq<u8> {
    if line.len() > 0 && line.last() == CARRIAGE_RETURN {
        line.drop_last()
    } else {
        line
    }
}

/// The lines of a text. A line ends at a line feed, or at a carriage return
/// followed by one; neither belongs to the line. What follows the last line
/// feed is a line of its own unless it is empty.
pub open spec fn text_lines(s: Seq<u8>) -> Seq<Seq<u8>>
    decreases s.len(),
{
    if s.len() == 0 {
        Seq::empty()
    } else if line_len(s) >= s.len() {
        seq![s]
    } else {
        seq![strip_return(s.take(line_len(s) as int))] + text_lines(s.skip(line_len(s) as int + 1))
    }
}

/// Whether every byte of a line is a digit.
pub open spec fn all_digits(line: Seq<u8>) -> bool {
    forall|i: int| 0 <= i < line.len() ==> is_digit(#[trigger] line[i])
}

/// Whether the byte at (`row`, `column`) is the first in reading order that
/// is not a digit.
pub open spec fn first_non_digit(lines: Seq<Seq<u8>>, row: int, column: int) -> bool {
    &&& 0 <= row < lines.len()
    &&& 0 <= column < lines[row].len()
    &&& !is_digit(lines[row][column])
    &&& all_digits(lines[row].take(column))
    &&& forall|r: int| 0 <= r < row ==> all_digits(#[trigger] lines[r])
}

/// Whether a text is a level map: every byte of every line is a digit.
pub open spec fn is_level_text(text: Seq<u8>) -> bool {
    forall|r: int| 0 <= r < text_lines(text).len() ==> all_digits(#[trigger] text_lines(text)[r])
}

/// The heights that a line of digits gives its columns.
pub open spec fn line_heights(line: Seq<u8>) -> Seq<u8> {
    Seq::new(line.len(), |i: int| digit_value(line[i]))
}

/// The heights that the lines of a map give, row by row.
pub open spec fn grid_heights(lines: Seq<Seq<u8>>) -> Seq<Seq<u8>> {
    Seq::new(lines.len(), |r: int| line_heights(lines[r]))
}

/// Why a text is no level map.
#[derive(Clone, Copy, Debug, PartialEq, Eq, Structural)]
pub enum LevelError {
    /// The byte `byte`, at `column` of line `row`, is not a decimal digit.
    NotADigit { row: usize, column: usize, byte: u8 },
}

/// The heights of a level's columns, indexed by row and then by column.
#[derive(Debug)]
pub struct LevelGrid {
    rows: Vec<Vec<u8>>,
}

impl View for LevelGrid {
    type V = Seq<Seq<u8>>;

    closed spec fn view(&self) -> Seq<Seq<u8>> {
        Seq::new(self.rows@.len(), |r: int| self.rows@[r]@)
    }
}

/// Whether every height of a grid is one that a digit can give.
pub open spec fn heights_in_range(grid: Seq<Seq<u8>>) -> bool {
    forall|r: int, x: int|
        0 <= r < grid.len() && 0 <= x < grid[r].len() ==> #[trigger] grid[r][x] <= MAX_HEIGHT
}

impl LevelGrid {
    /// The invariant of a grid: no height above nine.
    pub open spec fn wf(&self) -> bool {
        heights_in_range(self@)
    }
}

/// `line_len` of a text whose first `n` bytes hold no line feed and which
/// ends there or goes on with one.
proof fn lemma_line_len(s: Seq<u8>, n: int)
    requires
        0 <= n <= s.len(),
        forall|k: int| 0 <= k < n ==> s[k] != LINE_FEED,
        n == s.len() || s[n] == LINE_FEED,
    ensures
        line_len(s) == n,
    decreases n,
{
    if n > 0 {
        lemma_line_len(s.skip(1), n - 1);
    }
}

/// Reads a level map. The text is taken line by line, and every byte of a
/// line must be a decimal digit: the result is the grid of their values
/// where that holds, and else the first byte, in reading order, that is no
/// digit.
pub fn parse_level(text: &[u8]) -> (r: Result<LevelGrid, LevelError>)
    ensures
        r is Ok <==> is_level_text(text@),
        match r {
            Ok(grid) => grid.wf() && grid@ == text_heights(text@),
            Err(LevelError::NotADigit { row, column, byte }) => {
                &&& first_non_digit(text_lines(text@), row as int, column as int)
                &&& byte == text_lines(text@)[row as int][column as int]
            },
        },
{
    let n: usize = text.len();
    let mut rows: Vec<Vec<u8>> = Vec::new();
    let mut pos: usize = 0;
    let ghost mut done: Seq<Seq<u8>> = Seq::empty();
    let ghost lines = text_lines(text@);
    proof {
        assert(text@.skip(0) =~= text@);
        assert(done + lines =~= lines);
    }
    while pos < n
        invariant
            n == text@.len(),
            pos <= n,
            lines == text_lines(text@),
            lines == done + text_lines(text@.skip(pos as int)),
            rows@.len() == done.len(),
            forall|r: int| 0 <= r < done.len() ==> all_digits(#[trigger] done[r]),
            forall|r: int| 0 <= r < done.len() ==> (#[trigger] rows@[r])@ == line_heights(done[r]),
        decreases n - pos,
    {
        let mut end: usize = pos;
        while end < n && text[end] != LINE_FEED
            invariant
                n == text@.len(),
                pos <= end <= n,
                forall|k: int| pos <= k < end ==> text@[k] != LINE_FEED,
            decreases n - end,
        {
            end += 1;
        }
        let mut stop: usize = end;
        if end < n && end > pos && text[end - 1] == CARRIAGE_RETURN {
            stop = end - 1;
        }
        let ghost rest = text@.skip(pos as int);
        let ghost line = text@.subrange(pos as int, stop as int);
        proof {
            lemma_line_len(rest, end - pos);
            if end < n {
                assert(strip_return(rest.take(end - pos)) =~= line);
                assert(rest.skip(end - pos + 1) =~= text@.skip(end + 1));
            } else {
                assert(line =~= rest);
                assert(text_lines(text@.skip(n as int)) =~= Seq::<Seq<u8>>::empty());
            }
            assert(text_lines(rest) =~= seq![line] + text_lines(
                text@.skip(if end < n { end + 1 } else { n as int }),
            ));
            assert(lines[done.len() as int] == line);
            assert(forall|r: int| 0 <= r < done.len() ==> lines[r] == done[r]);
        }
        let mut row: Vec<u8> = Vec::new();
        let mut i: usize = pos;
        while i < stop
            invariant
                n == text@.len(),
                pos <= i <= stop <= n,
                line == text@.subrange(pos as int, stop as int),
                lines == text_lines(text@),
                rows@.len() == done.len() < lines.len(),
                lines[done.len() as int] == line,
                forall|r: int| 0 <= r < done.len() ==> all_digits(#[trigger] lines[r]),
                row@ == line_heights(line.take(i - pos)),
                all_digits(line.take(i - pos)),
            decreases stop - i,
        {
            let b: u8 = text[i];
            if b < DIGIT_ZERO || b > DIGIT_NINE {
                proof {
                    assert(line[i - pos] == b);
                    assert(!all_digits(lines[done.len() as int]));
                }
                return Err(LevelError::NotADigit { row: rows.len(), column: i - pos, byte: b });
            }
            row.push(b - DIGIT_ZERO);
            proof {
                assert(line.take(i + 1 - pos).drop_last() =~= line.take(i - pos));
                assert(row@ =~= line_heights(line.take(i + 1 - pos)));
            }
            i += 1;
        }
        proof {
            assert(line.take(stop - pos) =~= line);
            assert(done + text_lines(rest) =~= done.push(line) + text_lines(
                text@.skip(if end < n { end + 1 } else { n as int }),
            ));
        }
        rows.push(row);
        proof {
            done = done.push(line);
        }
        pos = if end < n { end + 1 } else { n };
    }
    let grid = LevelGrid { rows };
    proof {
        assert(text@.skip(n as int) =~= Seq::<u8>::empty());
        assert(lines =~= done);
        assert(grid@ =~= grid_heights(done));
    }
    Ok(grid)
}

/// One unit cube of the level: column `x` of row `row`, at height `y`.
#[derive(Clone, Copy, Debug, PartialEq, Eq, Structural)]
pub struct Block {
    pub x: usize,
    pub y: u8,
    pub row: usize,
}

/// The cubes of one column: none for height zero, else one at every height
/// from zero up to and including `height`, lowest first.
pub open spec fn column_blocks(x: usize, row: usize, height: u8) -> Seq<Block> {
    if height == 0 {
        Seq::empty()
    } else {
        Seq::new(height as nat + 1, |y: int| (Block { x, y: y as u8, row }))
    }
}

/// The cubes of one row, column after column.
pub open spec fn row_blocks(heights: Seq<u8>, row: usize) -> Seq<Block>
    decreases heights.len(),
{
    if heights.len() == 0 {
        Seq::empty()
    } else {
        row_blocks(heights.drop_last(), row) + column_blocks(
            (heights.len() - 1) as usize,
            row,
            heights.last(),
        )
    }
}

/// The cubes of a grid, row after row.
pub open spec fn grid_blocks(grid: Seq<Seq<u8>>) -> Seq<Block>
    decreases grid.len(),
{
    if grid.len() == 0 {
        Seq::empty()
    } else {
        grid_blocks(grid.drop_last()) + row_blocks(grid.last(), (grid.len() - 1) as usize)
    }
}

/// The grid that a level text gives.
pub open spec fn text_heights(text: Seq<u8>) -> Seq<Seq<u8>> {
    grid_heights(text_lines(text))
}

/// The cubes that a level text gives: those of its grid.
pub open spec fn text_blocks(text: Seq<u8>) -> Seq<Block> {
    grid_blocks(text_heights(text))
}

impl LevelGrid {
    /// The number of rows.
    pub fn row_count(&self) -> (n: usize)
        ensures
            n == self@.len(),
    {
        self.rows.len()
    }

    /// The height of column `x` of row `row`, where the grid has such a
    /// column.
    pub fn height_at(&self, row: usize, x: usize) -> (h: Option<u8>)
        ensures
            h == if row < self@.len() && x < self@[row as int].len() {
                Some(self@[row as int][x as int])
            } else {
                None
            },
    {
        if row < self.rows.len() && x < self.rows[row].len() {
            Some(self.rows[row][x])
        } else {
            None
        }
    }

    /// The cubes of the level, in the order of `grid_blocks`.
    pub fn blocks(&self) -> (out: Vec<Block>)
        ensures
            out@ == grid_blocks(self@),
    {
        let mut out: Vec<Block> = Vec::new();
        let mut r: usize = 0;
        while r < self.rows.len()
            invariant
                r <= self.rows@.len(),
                out@ == grid_blocks(self@.take(r as int)),
            decreases self.rows@.len() - r,
        {
            let heights = &self.rows[r];
            let ghost before = out@;
            let mut x: usize = 0;
            while x < heights.len()
                invariant
                    x <= heights@.len(),
                    out@ == before + row_blocks(heights@.take(x as int), r),
                decreases heights@.len() - x,
            {
                let height: u8 = heights[x];
                let ghost below = out@;
                if height > 0 {
                    let mut y: u8 = 0;
                    while y < height
                        invariant
                            y <= height,
                            out@ == below + Seq::new(
                                y as nat,
                                |i: int| (Block { x, y: i as u8, row: r }),
                            ),
                        decreases height - y,
                    {
                        out.push(Block { x, y, row: r });
                        y += 1;
                    }
                    out.push(Block { x, y: height, row: r });
                }
                proof {
                    assert(out@ =~= below + column_blocks(x, r, height));
                    assert(heights@.take(x + 1).drop_last() =~= heights@.take(x as int));
                }
                x += 1;
            }
            proof {
                assert(heights@.take(x as int) =~= heights@);
                assert(self@.take(r + 1).drop_last() =~= self@.take(r as int));
            }
            r += 1;
        }
        proof {
            assert(self@.take(r as int) =~= self@);
        }
        out
    }
}

/// Reads a level map and lays out its cubes, or gives the first byte that is
/// no digit.
pub fn level_blocks(text: &[u8]) -> (r: Result<Vec<Block>, LevelError>)
    ensures
        r is Ok <==> is_level_text(text@),
        match r {
            Ok(blocks) => blocks@ == text_blocks(text@),
            Err(LevelError::NotADigit { row, column, byte }) => {
                &&& first_non_digit(text_lines(text@), row as int, column as int)
                &&& byte == text_lines(text@)[row as int][column as int]
            },
        },
{
    match parse_level(text) {
        Ok(grid) => Ok(grid.blocks()),
        Err(e) => Err(e),
    }
}

/// The test that picks the cubes of column `x` of row `row`.
pub open spec fn at_column(x: usize, row: usize) -> spec_fn(Block) -> bool {
    |b: Block| b.x == x && b.row == row
}

/// The cubes of `blocks` that stand in column `x` of row `row`.
pub open spec fn blocks_at(blocks: Seq<Block>, x: usize, row: usize) -> Seq<Block> {
    blocks.filter(at_column(x, row))
}

/// Whether a grid's rows and columns can be numbered by `usize`.
pub open spec fn indexable(grid: Seq<Seq<u8>>) -> bool {
    &&& grid.len() <= usize::MAX
    &&& forall|r: int| 0 <= r < grid.len() ==> (#[trigger] grid[r]).len() <= usize::MAX
}

/// The number of cubes a column of the given height holds.
pub open spec fn column_count(height: u8) -> nat {
    if height == 0 {
        0
    } else {
        height as nat + 1
    }
}

/// A filter keeps a sequence whose items all pass it.
proof fn lemma_filter_keeps<A>(s: Seq<A>, pass: spec_fn(A) -> bool)
    requires
        forall|i: int| 0 <= i < s.len() ==> pass(#[trigger] s[i]),
    ensures
        s.filter(pass) == s,
    decreases s.len(),
{
    reveal(Seq::filter);
    if s.len() > 0 {
        lemma_filter_keeps(s.drop_last(), pass);
        assert(s.drop_last().push(s.last()) =~= s);
    }
}

/// A filter empties a sequence none of whose items pass it.
proof fn lemma_filter_drops<A>(s: Seq<A>, pass: spec_fn(A) -> bool)
    requires
        forall|i: int| 0 <= i < s.len() ==> !pass(#[trigger] s[i]),
    ensures
        s.filter(pass) == Seq::<A>::empty(),
    decreases s.len(),
{
    reveal(Seq::filter);
    if s.len() > 0 {
        lemma_filter_drops(s.drop_last(), pass);
    }
}

/// Of the cubes of one column, a column's test keeps all or none.
proof fn lemma_column_at(at_x: usize, at_row: usize, height: u8, x: usize, row: usize)
    ensures
        blocks_at(column_blocks(at_x, at_row, height), x, row) == if at_x == x && at_row == row {
            column_blocks(x, row, height)
        } else {
            Seq::empty()
        },
{
    let column = column_blocks(at_x, at_row, height);
    if at_x == x && at_row == row {
        lemma_filter_keeps(column, at_column(x, row));
    } else {
        lemma_filter_drops(column, at_column(x, row));
    }
}

/// Of the cubes of one row, a column's test keeps that column's.
proof fn lemma_row_at(heights: Seq<u8>, at_row: usize, x: usize, row: usize)
    requires
        heights.len() <= usize::MAX,
    ensures
        blocks_at(row_blocks(heights, at_row), x, row) == if at_row == row && x < heights.len() {
            column_blocks(x, row, heights[x as int])
        } else {
            Seq::empty()
        },
    decreases heights.len(),
{
    if heights.len() == 0 {
        lemma_filter_drops(row_blocks(heights, at_row), at_column(x, row));
    } else {
        let front = row_blocks(heights.drop_last(), at_row);
        let last_x = (heights.len() - 1) as usize;
        let back = column_blocks(last_x, at_row, heights.last());
        lemma_row_at(heights.drop_last(), at_row, x, row);
        lemma_column_at(last_x, at_row, heights.last(), x, row);
        Seq::filter_distributes_over_add(front, back, at_column(x, row));
        assert(blocks_at(front, x, row) + blocks_at(back, x, row) =~= if at_row == row && x
            < heights.len() {
            column_blocks(x, row, heights[x as int])
        } else {
            Seq::empty()
        });
    }
}

/// The cubes that a grid puts in column `x` of row `row` are those of that
/// column's height, lowest first, and none where the grid has no such
/// column. So a column of height zero holds no cube, and one of height
/// `h > 0` holds `h + 1`.
pub proof fn lemma_blocks_at_column(grid: Seq<Seq<u8>>, x: usize, row: usize)
    requires
        indexable(grid),
    ensures
        blocks_at(grid_blocks(grid), x, row) == if row < grid.len() && x < grid[row as int].len() {
            column_blocks(x, row, grid[row as int][x as int])
        } else {
            Seq::empty()
        },
        row < grid.len() && x < grid[row as int].len() ==> blocks_at(
            grid_blocks(grid),
            x,
            row,
        ).len() == column_count(grid[row as int][x as int]),
    decreases grid.len(),
{
    if grid.len() == 0 {
        lemma_filter_drops(grid_blocks(grid), at_column(x, row));
    } else {
        let front = grid_blocks(grid.drop_last());
        let last_row = (grid.len() - 1) as usize;
        let back = row_blocks(grid.last(), last_row);
        lemma_blocks_at_column(grid.drop_last(), x, row);
        lemma_row_at(grid.last(), last_row, x, row);
        Seq::filter_distributes_over_add(front, back, at_column(x, row));
        assert(blocks_at(front, x, row) + blocks_at(back, x, row) =~= if row < grid.len() && x
            < grid[row as int].len() {
            column_blocks(x, row, grid[row as int][x as int])
        } else {
            Seq::empty()
        });
    }
}

/// The same of a level text: where column `x` of line `row` holds a digit,
/// no cube stands there for the digit zero, and one more cube than the
/// digit's value for any other digit.
pub proof fn lemma_digit_block_count(text: Seq<u8>, x: usize, row: usize)
    requires
        text.len() <= usize::MAX,
        row < text_lines(text).len(),
        x < text_lines(text)[row as int].len(),
        is_digit(text_lines(text)[row as int][x as int]),
    ensures
        blocks_at(text_blocks(text), x, row).len() == column_count(
            digit_value(text_lines(text)[row as int][x as int]),
        ),
{
    lemma_lines_bounded(text);
    let grid = grid_heights(text_lines(text));
    lemma_blocks_at_column(grid, x, row);
}

/// A text has no more lines than bytes, and no line is longer than the text.
pub proof fn lemma_lines_bounded(text: Seq<u8>)
    ensures
        text_lines(text).len() <= text.len(),
        forall|r: int|
            0 <= r < text_lines(text).len() ==> (#[trigger] text_lines(text)[r]).len()
                <= text.len(),
    decreases text.len(),
{
    if text.len() > 0 {
        lemma_line_len_bounded(text);
        if line_len(text) < text.len() {
            let rest = text.skip(line_len(text) as int + 1);
            lemma_lines_bounded(rest);
            assert forall|r: int| 0 <= r < text_lines(text).len() implies (#[trigger] text_lines(
                text,
            )[r]).len() <= text.len() by {
                if r > 0 {
                    assert(text_lines(text)[r] == text_lines(rest)[r - 1]);
                }
            }
        }
    }
}

/// A first line is no longer than its text.
proof fn lemma_line_len_bounded(s: Seq<u8>)
    ensures
        line_len(s) <= s.len(),
    decreases s.len(),
{
    if s.len() > 0 && s[0] != LINE_FEED {
        lemma_line_len_bounded(s.skip(1));
    }
}

/// Whether a grid has a cube at `b`: its column exists, is not of height
/// zero, and reaches up to `b.y`.
pub open spec fn has_block(grid: Seq<Seq<u8>>, b: Block) -> bool {
    &&& b.row < grid.len()
    &&& b.x < grid[b.row as int].len()
    &&& 0 < grid[b.row as int][b.x as int]
    &&& b.y <= grid[b.row as int][b.x as int]
}

/// A cube is among others exactly if it is among those of its own column.
proof fn lemma_found_in_own_column(blocks: Seq<Block>, b: Block)
    ensures
        blocks.contains(b) <==> blocks_at(blocks, b.x, b.row).contains(b),
{
    if blocks.contains(b) {
        let i = choose|i: int| 0 <= i < blocks.len() && blocks[i] == b;
        blocks.lemma_filter_contains(at_column(b.x, b.row), i);
    }
    if blocks_at(blocks, b.x, b.row).contains(b) {
        blocks.lemma_filter_contains_rev(at_column(b.x, b.row), b);
    }
}

/// The cubes of a column are those at its place and up to its height.
proof fn lemma_column_membership(x: usize, row: usize, height: u8, b: Block)
    ensures
        column_blocks(x, row, height).contains(b) <==> b.x == x && b.row == row && 0 < height
            && b.y <= height,
{
    let column = column_blocks(x, row, height);
    if b.x == x && b.row == row && 0 < height && b.y <= height {
        assert(column[b.y as int] == b);
    }
}

/// The cubes of a row are those of its columns.
proof fn lemma_row_membership(heights: Seq<u8>, row: usize, b: Block)
    requires
        heights.len() <= usize::MAX,
    ensures
        row_blocks(heights, row).contains(b) <==> b.row == row && b.x < heights.len() && 0
            < heights[b.x as int] && b.y <= heights[b.x as int],
{
    lemma_found_in_own_column(row_blocks(heights, row), b);
    lemma_row_at(heights, row, b.x, b.row);
    if b.row == row && b.x < heights.len() {
        lemma_column_membership(b.x, b.row, heights[b.x as int], b);
    }
}

/// A grid lays out one cube for every place that `has_block` names, and no
/// other: for each column that is not of height zero, one at each height
/// from zero up to and including the column's.
pub proof fn lemma_block_membership(grid: Seq<Seq<u8>>, b: Block)
    requires
        indexable(grid),
    ensures
        grid_blocks(grid).contains(b) <==> has_block(grid, b),
{
    lemma_found_in_own_column(grid_blocks(grid), b);
    lemma_blocks_at_column(grid, b.x, b.row);
    if b.row < grid.len() && b.x < grid[b.row as int].len() {
        lemma_column_membership(b.x, b.row, grid[b.row as int][b.x as int], b);
    }
}

/// No cube of a row is laid out twice.
proof fn lemma_row_blocks_distinct(heights: Seq<u8>, row: usize)
    requires
        heights.len() <= usize::MAX,
    ensures
        row_blocks(heights, row).no_duplicates(),
    decreases heights.len(),
{
    if heights.len() > 0 {
        let front = row_blocks(heights.drop_last(), row);
        let last_x = (heights.len() - 1) as usize;
        let back = column_blocks(last_x, row, heights.last());
        lemma_row_blocks_distinct(heights.drop_last(), row);
        assert forall|i: int, j: int| 0 <= i < front.len() && 0 <= j < back.len() implies front[i]
            != back[j] by {
            lemma_row_membership(heights.drop_last(), row, front[i]);
            lemma_column_membership(last_x, row, heights.last(), back[j]);
            assert(front.contains(front[i]));
            assert(back.contains(back[j]));
        }
        vstd::seq_lib::lemma_no_dup_in_concat(front, back);
    }
}

/// No cube of a grid is laid out twice.
pub proof fn lemma_blocks_distinct(grid: Seq<Seq<u8>>)
    requires
        indexable(grid),
    ensures
        grid_blocks(grid).no_duplicates(),
    decreases grid.len(),
{
    if grid.len() > 0 {
        let front = grid_blocks(grid.drop_last());
        let last_row = (grid.len() - 1) as usize;
        let back = row_blocks(grid.last(), last_row);
        lemma_blocks_distinct(grid.drop_last());
        lemma_row_blocks_distinct(grid.last(), last_row);
        assert forall|i: int, j: int| 0 <= i < front.len() && 0 <= j < back.len() implies front[i]
            != back[j] by {
            lemma_block_membership(grid.drop_last(), front[i]);
            lemma_row_membership(grid.last(), last_row, back[j]);
            assert(front.contains(front[i]));
            assert(back.contains(back[j]));
        }
        vstd::seq_lib::lemma_no_dup_in_concat(front, back);
    }
}

} // verus!
