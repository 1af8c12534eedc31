//! Laws of the screen model.
//!
//! Each law is stated over [`Screen`], the value that the writer's contracts
//! speak of, and so holds of every writer.

use vstd::prelude::*;
use crate::screen::{
    blank_row, is_printable, join_lines, line_start, newlines, padded_row, sanitize, sanitized,
    Screen, NEWLINE, PLACEHOLDER,
};
use crate::video_memory::{BUFFER_HEIGHT, BUFFER_WIDTH};

verus! {

/// Scrolling keeps the screen well formed and its color.
pub proof fn lemma_line_shift_wf(screen: Screen)
    requires
        screen.wf(),
    ensures
        screen.line_shift().wf(),
        screen.line_shift().color == screen.color,
        screen.line_shift().column == 0,
        screen.line_shift().rows[BUFFER_HEIGHT - 1] == blank_row(screen.color),
        forall|row: int|
            0 <= row < BUFFER_HEIGHT - 1 ==> #[trigger] screen.line_shift().rows[row]
                == screen.rows[row + 1],
{
}

/// Writing one byte keeps the screen well formed and its color, and leaves
/// the cursor on the bottom row.
pub proof fn lemma_write_byte_wf(screen: Screen, byte: u8)
    requires
        screen.wf(),
    ensures
        screen.write_byte(byte).wf(),
        screen.write_byte(byte).color == screen.color,
        byte != NEWLINE ==> 1 <= screen.write_byte(byte).column,
{
    lemma_line_shift_wf(screen);
}

/// Writing any bytes keeps the screen well formed and its color.
pub proof fn lemma_write_bytes_wf(screen: Screen, bytes: Seq<u8>)
    requires
        screen.wf(),
    ensures
        screen.write_bytes(bytes).wf(),
        screen.write_bytes(bytes).color == screen.color,
    decreases bytes.len(),
{
    if bytes.len() > 0 {
        lemma_write_bytes_wf(screen, bytes.drop_last());
        lemma_write_byte_wf(screen.write_bytes(bytes.drop_last()), bytes.last());
    }
}

/// Writing any string keeps the screen well formed and its color.
pub proof fn lemma_write_string_wf(screen: Screen, bytes: Seq<u8>)
    requires
        screen.wf(),
    ensures
        screen.write_string(bytes).wf(),
        screen.write_string(bytes).color == screen.color,
{
    lemma_write_bytes_wf(screen, sanitized(bytes));
}

/// Writing two runs of bytes one after the other is writing their
/// concatenation, and the scrolls add up.
pub proof fn lemma_write_bytes_concat(screen: Screen, first: Seq<u8>, second: Seq<u8>)
    ensures
        screen.write_bytes(first + second) == screen.write_bytes(first).write_bytes(second),
        screen.scrolls(first + second) == screen.scrolls(first) + screen.write_bytes(
            first,
        ).scrolls(second),
    decreases second.len(),
{
    if second.len() == 0 {
        assert(first + second =~= first);
    } else {
        assert((first + second).drop_last() =~= first + second.drop_last());
        assert((first + second).last() == second.last());
        lemma_write_bytes_concat(screen, first, second.drop_last());
    }
}

/// Two calls in a row show what one call with the joined text shows: the
/// second text begins where the first ended, and no cell of one call is
/// written between two cells of the other.
pub proof fn lemma_write_string_concat(screen: Screen, first: Seq<u8>, second: Seq<u8>)
    ensures
        screen.write_string(first + second) == screen.write_string(first).write_string(second),
{
    assert(sanitized(first + second) =~= sanitized(first) + sanitized(second));
    lemma_write_bytes_concat(screen, sanitized(first), sanitized(second));
}

/// Where a byte lands. Take any byte of a run that is not a newline. Writing
/// the run up to and including that byte leaves the cursor just right of it.
/// After the whole run the byte stands in that column, as many rows above the
/// bottom row as the screen has scrolled since, unless it has left the screen
/// at the top. No byte is dropped and none is overwritten while its row is
/// the bottom row.
pub proof fn lemma_byte_lands(screen: Screen, bytes: Seq<u8>, index: int)
    requires
        screen.wf(),
        0 <= index < bytes.len(),
        bytes[index] != NEWLINE,
    ensures
        ({
            let at = screen.write_bytes(bytes.take(index + 1));
            let end = screen.write_bytes(bytes);
            let risen = screen.scrolls(bytes) - screen.scrolls(bytes.take(index + 1));
            &&& 1 <= at.column <= BUFFER_WIDTH
            &&& 0 <= risen
            &&& risen == 0 ==> at.column <= end.column
            &&& risen < BUFFER_HEIGHT ==> end.rows[BUFFER_HEIGHT - 1 - risen][at.column - 1]
                == screen.glyph(bytes[index])
        }),
    decreases bytes.len(),
{
    let before = bytes.drop_last();
    lemma_write_bytes_wf(screen, before);
    lemma_write_byte_wf(screen.write_bytes(before), bytes.last());
    lemma_line_shift_wf(screen.write_bytes(before));
    if index + 1 == bytes.len() {
        assert(bytes.take(index + 1) =~= bytes);
    } else {
        assert(before.take(index + 1) =~= bytes.take(index + 1));
        lemma_byte_lands(screen, before, index);
    }
}

/// Sanitizing keeps the length, keeps newlines where they are and makes no
/// new ones; what it yields is printable, a newline or the placeholder.
pub proof fn lemma_sanitized(bytes: Seq<u8>)
    ensures
        sanitized(bytes).len() == bytes.len(),
        forall|i: int|
            0 <= i < bytes.len() ==> #[trigger] sanitized(bytes)[i] == sanitize(bytes[i]),
        forall|i: int|
            0 <= i < bytes.len() ==> (#[trigger] sanitized(bytes)[i] == NEWLINE <==> bytes[i]
                == NEWLINE),
        forall|i: int|
            0 <= i < bytes.len() && (is_printable(bytes[i]) || bytes[i] == NEWLINE)
                ==> #[trigger] sanitized(bytes)[i] == bytes[i],
        forall|i: int|
            0 <= i < bytes.len() && !is_printable(bytes[i]) && bytes[i] != NEWLINE
                ==> #[trigger] sanitized(bytes)[i] == PLACEHOLDER,
{
}

/// Where a byte of a string lands: as [`lemma_byte_lands`] says, with the
/// glyph of the sanitized byte in the cell.
pub proof fn lemma_string_byte_lands(screen: Screen, bytes: Seq<u8>, index: int)
    requires
        screen.wf(),
        0 <= index < bytes.len(),
        bytes[index] != NEWLINE,
    ensures
        ({
            let at = screen.write_string(bytes.take(index + 1));
            let end = screen.write_string(bytes);
            let risen = screen.string_scrolls(bytes) - screen.string_scrolls(
                bytes.take(index + 1),
            );
            &&& 1 <= at.column <= BUFFER_WIDTH
            &&& 0 <= risen
            &&& risen == 0 ==> at.column <= end.column
            &&& risen < BUFFER_HEIGHT ==> end.rows[BUFFER_HEIGHT - 1 - risen][at.column - 1]
                == screen.glyph(sanitize(bytes[index]))
        }),
{
    lemma_sanitized(bytes);
    assert(sanitized(bytes).take(index + 1) =~= sanitized(bytes.take(index + 1)));
    lemma_byte_lands(screen, sanitized(bytes), index);
}

/// A byte of a string that is neither printable nor a newline is shown as the
/// placeholder glyph: the cell on which it lands holds the placeholder in the
/// current color, and so not the byte itself, unless the byte has the
/// placeholder's own code.
pub proof fn lemma_unprintable_shows_placeholder(screen: Screen, bytes: Seq<u8>, index: int)
    requires
        screen.wf(),
        0 <= index < bytes.len(),
        !is_printable(bytes[index]),
        bytes[index] != NEWLINE,
    ensures
        ({
            let at = screen.write_string(bytes.take(index + 1));
            let end = screen.write_string(bytes);
            let risen = screen.string_scrolls(bytes) - screen.string_scrolls(
                bytes.take(index + 1),
            );
            let cell = end.rows[BUFFER_HEIGHT - 1 - risen][at.column - 1];
            &&& 1 <= at.column <= BUFFER_WIDTH
            &&& 0 <= risen
            &&& risen < BUFFER_HEIGHT ==> cell == screen.glyph(PLACEHOLDER)
            &&& risen < BUFFER_HEIGHT && bytes[index] != PLACEHOLDER ==> cell.ascii_char
                != bytes[index]
        }),
{
    lemma_string_byte_lands(screen, bytes, index);
}

/// All that a screen shows is printable ASCII or the placeholder.
pub open spec fn presentable(screen: Screen) -> bool {
    forall|row: int, col: int|
        0 <= row < BUFFER_HEIGHT && 0 <= col < BUFFER_WIDTH ==> {
            let shown = (#[trigger] screen.rows[row][col]).ascii_char;
            is_printable(shown) || shown == PLACEHOLDER
        }
}

/// Writing strings never brings a byte to the screen that is neither
/// printable nor the placeholder: a screen that shows none, shows none after
/// any string.
pub proof fn lemma_write_string_presentable(screen: Screen, bytes: Seq<u8>)
    requires
        screen.wf(),
        presentable(screen),
    ensures
        presentable(screen.write_string(bytes)),
    decreases bytes.len(),
{
    if bytes.len() > 0 {
        let before = bytes.drop_last();
        lemma_sanitized(bytes);
        assert(sanitized(bytes).drop_last() =~= sanitized(before));
        lemma_write_string_presentable(screen, before);
        lemma_write_string_wf(screen, before);
        let mid = screen.write_string(before);
        lemma_line_shift_wf(mid);
        let shifted = mid.line_shift();
        assert(presentable(shifted)) by {
            assert forall|row: int, col: int|
                0 <= row < BUFFER_HEIGHT && 0 <= col < BUFFER_WIDTH implies {
                let shown = (#[trigger] shifted.rows[row][col]).ascii_char;
                is_printable(shown) || shown == PLACEHOLDER
            } by {
                if row < BUFFER_HEIGHT - 1 {
                    assert(shifted.rows[row] == mid.rows[row + 1]);
                    assert(is_printable(mid.rows[row + 1][col].ascii_char) || mid.rows[row
                        + 1][col].ascii_char == PLACEHOLDER);
                }
            }
        }
        let end = mid.write_byte(sanitize(bytes.last()));
        assert(end == screen.write_string(bytes));
        assert forall|row: int, col: int|
            0 <= row < BUFFER_HEIGHT && 0 <= col < BUFFER_WIDTH implies {
            let shown = (#[trigger] end.rows[row][col]).ascii_char;
            is_printable(shown) || shown == PLACEHOLDER
        } by {
            let start = if mid.column >= BUFFER_WIDTH {
                shifted
            } else {
                mid
            };
            assert(is_printable(start.rows[row][col].ascii_char) || start.rows[row][col].ascii_char
                == PLACEHOLDER);
        }
    }
}

/// A run of bytes without a newline, from any cursor position. The screen
/// scrolls each time the run crosses the end of a row, and the cursor ends
/// one past the last byte. With `p` the cursor before the run and `n` the
/// length of the run, the last byte stands at position `p + n - 1` counted
/// along rows of the screen's width.
pub proof fn lemma_run_wraps(screen: Screen, bytes: Seq<u8>)
    requires
        screen.wf(),
        bytes.len() >= 1,
        forall|i: int| 0 <= i < bytes.len() ==> bytes[i] != NEWLINE,
    ensures
        ({
            let last = screen.column + bytes.len() - 1;
            let first = if screen.column == 0 {
                0
            } else {
                screen.column - 1
            };
            &&& screen.write_bytes(bytes).column == last % (BUFFER_WIDTH as int) + 1
            &&& screen.scrolls(bytes) == last / (BUFFER_WIDTH as int) - first / (
            BUFFER_WIDTH as int)
        }),
    decreases bytes.len(),
{
    let before = bytes.drop_last();
    assert(bytes.drop_last().drop_last().len() >= 0);
    if before.len() == 0 {
        assert(screen.write_bytes(before) == screen);
        assert(screen.scrolls(before) == 0);
    } else {
        lemma_run_wraps(screen, before);
    }
}

/// A string without a newline, written from the start of a row. With `n` its
/// length and `w` the width of the screen, the screen scrolls `ceil(n / w) - 1`
/// times, the cursor ends at `n mod w`, or at `w` where that is zero, and
/// byte `i` stands in column `i mod w`, one row higher for each row filled
/// after its own. No byte is dropped.
pub proof fn lemma_long_string_wraps(screen: Screen, bytes: Seq<u8>)
    requires
        screen.wf(),
        screen.column == 0,
        bytes.len() >= 1,
        forall|i: int| 0 <= i < bytes.len() ==> bytes[i] != NEWLINE,
    ensures
        ({
            let n = bytes.len() as int;
            let w = BUFFER_WIDTH as int;
            let end = screen.write_string(bytes);
            &&& screen.string_scrolls(bytes) == (n + w - 1) / w - 1
            &&& end.column == if n % w == 0 {
                w
            } else {
                n % w
            }
            &&& forall|i: int|
                0 <= i < n && (n - 1) / w - i / w < BUFFER_HEIGHT ==> (#[trigger] end.rows[
                    BUFFER_HEIGHT - 1 - ((n - 1) / w - i / w)][i % w]) == screen.glyph(
                    sanitize(bytes[i]),
                )
        }),
{
    let n = bytes.len() as int;
    let w = BUFFER_WIDTH as int;
    let end = screen.write_string(bytes);
    lemma_sanitized(bytes);
    lemma_run_wraps(screen, sanitized(bytes));
    assert forall|i: int| 0 <= i < n && (n - 1) / w - i / w < BUFFER_HEIGHT implies (
    #[trigger] end.rows[BUFFER_HEIGHT - 1 - ((n - 1) / w - i / w)][i % w]) == screen.glyph(
        sanitize(bytes[i]),
    ) by {
        lemma_string_byte_lands(screen, bytes, i);
        lemma_sanitized(bytes.take(i + 1));
        lemma_run_wraps(screen, sanitized(bytes.take(i + 1)));
    }
}

/// The start of a line lies between the start of the bytes and the position
/// asked for, and no newline stands between the two.
pub proof fn lemma_line_start(bytes: Seq<u8>, index: int)
    requires
        0 <= index <= bytes.len(),
    ensures
        0 <= line_start(bytes, index) <= index,
        forall|i: int| line_start(bytes, index) <= i < index ==> bytes[i] != NEWLINE,
        line_start(bytes, index) > 0 ==> bytes[line_start(bytes, index) - 1] == NEWLINE,
    decreases index,
{
    if index > 0 && bytes[index - 1] != NEWLINE {
        lemma_line_start(bytes, index - 1);
    }
}

/// The newlines of two runs of bytes add up.
pub proof fn lemma_newlines_concat(first: Seq<u8>, second: Seq<u8>)
    ensures
        newlines(first + second) == newlines(first) + newlines(second),
    decreases second.len(),
{
    if second.len() == 0 {
        assert(first + second =~= first);
    } else {
        assert((first + second).drop_last() =~= first + second.drop_last());
        lemma_newlines_concat(first, second.drop_last());
    }
}

/// Text that cannot reach the end of a row: the cursor is as far into the
/// row as the text is into its line, and the screen scrolls once for each
/// newline.
pub proof fn lemma_short_text_cursor(screen: Screen, bytes: Seq<u8>, count: int)
    requires
        screen.wf(),
        screen.column + bytes.len() <= BUFFER_WIDTH,
        0 <= count <= bytes.len(),
    ensures
        ({
            let start = line_start(bytes, count);
            &&& screen.write_bytes(bytes.take(count)).column == if start == 0 {
                screen.column + count
            } else {
                count - start
            }
            &&& screen.scrolls(bytes.take(count)) == newlines(bytes.take(count))
        }),
    decreases count,
{
    if count > 0 {
        assert(bytes.take(count).drop_last() =~= bytes.take(count - 1));
        lemma_short_text_cursor(screen, bytes, count - 1);
        lemma_line_start(bytes, count - 1);
    }
}

/// Text made of printable bytes and newlines that is no longer than the
/// room left on the row reads back as it was written. Each byte stands as
/// many rows above the bottom row as newlines follow it, and as far into
/// the row as it is into its line; on the first line that is counted from
/// where the cursor stood.
pub proof fn lemma_text_reads_back(screen: Screen, bytes: Seq<u8>, index: int)
    requires
        screen.wf(),
        forall|i: int| 0 <= i < bytes.len() ==> is_printable(bytes[i]) || bytes[i] == NEWLINE,
        screen.column + bytes.len() <= BUFFER_WIDTH,
        0 <= index < bytes.len(),
        bytes[index] != NEWLINE,
    ensures
        ({
            let end = screen.write_string(bytes);
            let below = newlines(bytes.skip(index + 1));
            let start = line_start(bytes, index);
            let col = if start == 0 {
                screen.column + index
            } else {
                index - start
            };
            &&& 0 <= col < BUFFER_WIDTH
            &&& below < BUFFER_HEIGHT ==> end.rows[BUFFER_HEIGHT - 1 - below][col] == screen.glyph(
                bytes[index],
            )
        }),
{
    lemma_sanitized(bytes);
    assert(sanitized(bytes) =~= bytes);
    lemma_byte_lands(screen, bytes, index);
    lemma_short_text_cursor(screen, bytes, index + 1);
    lemma_short_text_cursor(screen, bytes, bytes.len() as int);
    assert(bytes.take(bytes.len() as int) =~= bytes);
    lemma_line_start(bytes, index);
    assert(bytes =~= bytes.take(index + 1) + bytes.skip(index + 1));
    lemma_newlines_concat(bytes.take(index + 1), bytes.skip(index + 1));
}

/// A line that fits the row, written from the start of a row, reads back from
/// the bottom row: byte `i` of the line stands in column `i`.
pub proof fn lemma_line_reads_back(screen: Screen, line: Seq<u8>)
    requires
        screen.wf(),
        screen.column == 0,
        line.len() <= BUFFER_WIDTH,
        forall|i: int| 0 <= i < line.len() ==> is_printable(line[i]),
    ensures
        screen.write_string(line).column == line.len(),
        forall|i: int|
            0 <= i < line.len() ==> (#[trigger] screen.write_string(line).rows[BUFFER_HEIGHT
                - 1][i]) == screen.glyph(line[i]),
{
    lemma_sanitized(line);
    assert(sanitized(line) =~= line);
    lemma_short_text_cursor(screen, line, line.len() as int);
    assert(line.take(line.len() as int) =~= line);
    lemma_line_start(line, line.len() as int);
    assert forall|i: int| 0 <= i < line.len() implies (#[trigger] screen.write_string(
        line,
    ).rows[BUFFER_HEIGHT - 1][i]) == screen.glyph(line[i]) by {
        lemma_text_reads_back(screen, line, i);
        lemma_line_start(line, i);
        lemma_no_newlines(line.skip(i + 1));
    }
}

/// Bytes none of which is a newline hold no newlines.
pub proof fn lemma_no_newlines(bytes: Seq<u8>)
    requires
        forall|i: int| 0 <= i < bytes.len() ==> bytes[i] != NEWLINE,
    ensures
        newlines(bytes) == 0,
        line_start(bytes, bytes.len() as int) == 0,
    decreases bytes.len(),
{
    if bytes.len() > 0 {
        lemma_no_newlines(bytes.drop_last());
        lemma_line_start(bytes, bytes.len() as int);
    }
}

/// Whatever the screen showed and wherever the cursor stood, a string that
/// ends in a newline leaves the cursor at the start of an empty bottom row.
pub proof fn lemma_newline_freshens(screen: Screen, bytes: Seq<u8>)
    requires
        screen.wf(),
    ensures
        screen.write_string(bytes.push(NEWLINE)).fresh(),
{
    lemma_sanitized(bytes.push(NEWLINE));
    assert(sanitized(bytes.push(NEWLINE)).drop_last() =~= sanitized(bytes));
    lemma_write_string_wf(screen, bytes);
    lemma_line_shift_wf(screen.write_string(bytes));
}

/// A line that fits the row, written at the start of an empty bottom row,
/// fills that row from the left and changes nothing else.
pub proof fn lemma_line_on_bottom_row(screen: Screen, line: Seq<u8>)
    requires
        screen.wf(),
        screen.fresh(),
        line.len() <= BUFFER_WIDTH,
        forall|i: int| 0 <= i < line.len() ==> line[i] != NEWLINE,
    ensures
        screen.write_string(line) == (Screen {
            rows: screen.rows.update(
                BUFFER_HEIGHT - 1,
                padded_row(sanitized(line), screen.color),
            ),
            column: line.len() as int,
            color: screen.color,
        }),
    decreases line.len(),
{
    let bottom = BUFFER_HEIGHT - 1;
    lemma_sanitized(line);
    if line.len() == 0 {
        assert(padded_row(sanitized(line), screen.color) =~= blank_row(screen.color));
        assert(screen.rows.update(bottom, padded_row(sanitized(line), screen.color))
            =~= screen.rows);
    } else {
        let before = line.drop_last();
        lemma_sanitized(before);
        assert(sanitized(line).drop_last() =~= sanitized(before));
        lemma_line_on_bottom_row(screen, before);
        let mid = screen.write_string(before);
        let end = mid.write_byte(sanitize(line.last()));
        assert(end == screen.write_string(line));
        assert(end.rows[bottom] =~= padded_row(sanitized(line), screen.color));
        assert(end.rows =~= screen.rows.update(
            bottom,
            padded_row(sanitized(line), screen.color),
        ));
    }
}

/// A line that fits the row and its newline, written at the start of an
/// empty bottom row: the rows move up by one, the line stands on the row
/// above the bottom row, and the bottom row is empty again.
pub proof fn lemma_line_then_newline(screen: Screen, line: Seq<u8>)
    requires
        screen.wf(),
        screen.fresh(),
        line.len() <= BUFFER_WIDTH,
        forall|i: int| 0 <= i < line.len() ==> line[i] != NEWLINE,
    ensures
        screen.write_string(line.push(NEWLINE)) == (Screen {
            rows: screen.rows.subrange(1, BUFFER_HEIGHT - 1).push(
                padded_row(sanitized(line), screen.color),
            ).push(blank_row(screen.color)),
            column: 0,
            color: screen.color,
        }),
        screen.write_string(line.push(NEWLINE)).wf(),
        screen.write_string(line.push(NEWLINE)).fresh(),
{
    lemma_line_on_bottom_row(screen, line);
    lemma_sanitized(line.push(NEWLINE));
    assert(sanitized(line.push(NEWLINE)).drop_last() =~= sanitized(line));
    let mid = screen.write_string(line);
    let end = screen.write_string(line.push(NEWLINE));
    assert(end == mid.line_shift());
    assert(end.rows =~= screen.rows.subrange(1, BUFFER_HEIGHT - 1).push(
        padded_row(sanitized(line), screen.color),
    ).push(blank_row(screen.color)));
}

/// Every line fits the row and holds no newline.
pub open spec fn lines_fit(lines: Seq<Seq<u8>>) -> bool {
    forall|i: int|
        0 <= i < lines.len() ==> {
            &&& (#[trigger] lines[i]).len() <= BUFFER_WIDTH
            &&& forall|j: int| 0 <= j < lines[i].len() ==> lines[i][j] != NEWLINE
        }
}

/// Joining two runs of lines joins their texts.
pub proof fn lemma_join_lines_concat(first: Seq<Seq<u8>>, second: Seq<Seq<u8>>)
    ensures
        join_lines(first + second) == join_lines(first) + join_lines(second),
    decreases second.len(),
{
    if second.len() == 0 {
        assert(first + second =~= first);
        assert(join_lines(first) + join_lines(second) =~= join_lines(first));
    } else {
        assert((first + second).drop_last() =~= first + second.drop_last());
        lemma_join_lines_concat(first, second.drop_last());
        assert(join_lines(first + second) =~= join_lines(first) + join_lines(second));
    }
}

/// Lines written at the start of an empty bottom row, each followed by its
/// newline. The bottom row stays empty, the last line stands just above it,
/// the line before that one row higher, and so on up the screen.
pub proof fn lemma_lines_stack(screen: Screen, lines: Seq<Seq<u8>>)
    requires
        screen.wf(),
        screen.fresh(),
        lines_fit(lines),
    ensures
        ({
            let end = screen.write_string(join_lines(lines));
            let text_rows = BUFFER_HEIGHT - 1;
            &&& end.wf()
            &&& end.fresh()
            &&& end.color == screen.color
            &&& forall|row: int|
                0 <= row < text_rows && 0 <= lines.len() - text_rows + row ==> (
                #[trigger] end.rows[row]) == padded_row(
                    sanitized(lines[lines.len() - text_rows + row]),
                    screen.color,
                )
            &&& forall|row: int|
                0 <= row < text_rows && lines.len() - text_rows + row < 0 ==> (
                #[trigger] end.rows[row]) == screen.rows[row + lines.len()]
        }),
    decreases lines.len(),
{
    if lines.len() == 0 {
        assert(sanitized(join_lines(lines)) =~= Seq::<u8>::empty());
    } else {
        let before = lines.drop_last();
        let line = lines.last();
        assert(lines_fit(before)) by {
            assert forall|i: int| 0 <= i < before.len() implies {
                &&& (#[trigger] before[i]).len() <= BUFFER_WIDTH
                &&& forall|j: int| 0 <= j < before[i].len() ==> before[i][j] != NEWLINE
            } by {
                assert(before[i] == lines[i]);
            }
        }
        lemma_lines_stack(screen, before);
        lemma_write_string_concat(screen, join_lines(before), line.push(NEWLINE));
        let mid = screen.write_string(join_lines(before));
        lemma_line_then_newline(mid, line);
    }
}

/// As many lines as the screen has rows, or more, each followed by its
/// newline, written to any screen. Afterwards the screen shows the latest
/// lines and nothing else: the bottom row is empty, the last line stands just
/// above it, and each row above holds the line written before the one below
/// it. Nothing older is left, neither of the lines nor of what the screen
/// showed before.
pub proof fn lemma_latest_lines_fill_screen(screen: Screen, lines: Seq<Seq<u8>>)
    requires
        screen.wf(),
        lines_fit(lines),
        lines.len() >= BUFFER_HEIGHT,
    ensures
        ({
            let end = screen.write_string(join_lines(lines));
            let text_rows = BUFFER_HEIGHT - 1;
            &&& end.column == 0
            &&& end.rows.len() == BUFFER_HEIGHT
            &&& end.rows[text_rows] == blank_row(screen.color)
            &&& forall|row: int|
                0 <= row < text_rows ==> (#[trigger] end.rows[row]) == padded_row(
                    sanitized(lines[lines.len() - text_rows + row]),
                    screen.color,
                )
        }),
{
    let head = lines.take(1);
    let tail = lines.skip(1);
    assert(lines =~= head + tail);
    lemma_join_lines_concat(head, tail);
    assert(join_lines(head) =~= lines[0].push(NEWLINE)) by {
        assert(head.drop_last() =~= Seq::<Seq<u8>>::empty());
        assert(join_lines(head.drop_last()) =~= Seq::<u8>::empty());
    }
    lemma_write_string_concat(screen, join_lines(head), join_lines(tail));
    lemma_newline_freshens(screen, lines[0]);
    lemma_write_string_wf(screen, lines[0].push(NEWLINE));
    let mid = screen.write_string(lines[0].push(NEWLINE));
    assert(lines_fit(tail)) by {
        assert forall|i: int| 0 <= i < tail.len() implies {
            &&& (#[trigger] tail[i]).len() <= BUFFER_WIDTH
            &&& forall|j: int| 0 <= j < tail[i].len() ==> tail[i][j] != NEWLINE
        } by {
            assert(tail[i] == lines[i + 1]);
        }
    }
    lemma_lines_stack(mid, tail);
    let end = screen.write_string(join_lines(lines));
    let text_rows = BUFFER_HEIGHT - 1;
    assert forall|row: int| 0 <= row < text_rows implies (#[trigger] end.rows[row])
        == padded_row(sanitized(lines[lines.len() - text_rows + row]), screen.color) by {
        assert(tail[tail.len() - text_rows + row] == lines[lines.len() - text_rows + row]);
    }
}

/// Two screens show the same in their lowest rows: they have the same color
/// and cursor, and the bottom row and the `depth` rows above it are equal.
pub open spec fn agree_below(first: Screen, second: Screen, depth: int) -> bool {
    &&& first.wf()
    &&& second.wf()
    &&& first.color == second.color
    &&& first.column == second.column
    &&& forall|row: int|
        0 <= row < BUFFER_HEIGHT && BUFFER_HEIGHT - 1 - depth <= row ==> #[trigger] first.rows[row]
            == second.rows[row]
}

/// Writing the same bytes to two screens that agree in their lowest rows
/// leaves them in agreement, one row deeper for each scroll.
pub proof fn lemma_agreement_grows(first: Screen, second: Screen, depth: int, bytes: Seq<u8>)
    requires
        agree_below(first, second, depth),
        0 <= depth,
    ensures
        first.scrolls(bytes) == second.scrolls(bytes),
        agree_below(
            first.write_bytes(bytes),
            second.write_bytes(bytes),
            depth + first.scrolls(bytes),
        ),
    decreases bytes.len(),
{
    if bytes.len() > 0 {
        let before = bytes.drop_last();
        lemma_agreement_grows(first, second, depth, before);
        let one = first.write_bytes(before);
        let two = second.write_bytes(before);
        let deeper = depth + first.scrolls(before);
        lemma_line_shift_wf(one);
        lemma_line_shift_wf(two);
        lemma_write_byte_wf(one, bytes.last());
        lemma_write_byte_wf(two, bytes.last());
        assert(agree_below(one.line_shift(), two.line_shift(), deeper + 1));
    }
}

/// The screen scrolls at least once for each newline.
pub proof fn lemma_newlines_scroll(screen: Screen, bytes: Seq<u8>)
    ensures
        screen.scrolls(bytes) >= newlines(bytes),
    decreases bytes.len(),
{
    if bytes.len() > 0 {
        lemma_newlines_scroll(screen, bytes.drop_last());
    }
}

/// Sanitizing keeps the number of newlines.
pub proof fn lemma_sanitized_newlines(bytes: Seq<u8>)
    ensures
        newlines(sanitized(bytes)) == newlines(bytes),
    decreases bytes.len(),
{
    if bytes.len() > 0 {
        lemma_sanitized(bytes);
        assert(sanitized(bytes).drop_last() =~= sanitized(bytes.drop_last()));
        lemma_sanitized_newlines(bytes.drop_last());
    }
}

/// What the screen shows after a string depends on nothing older than its
/// last rows. Two screens with the same color, cursor and bottom row show the
/// same after any string with at least as many newlines as there are rows
/// above the bottom row: whatever else they showed has left at the top.
pub proof fn lemma_old_rows_leave(first: Screen, second: Screen, bytes: Seq<u8>)
    requires
        first.wf(),
        second.wf(),
        first.color == second.color,
        first.column == second.column,
        first.rows[BUFFER_HEIGHT - 1] == second.rows[BUFFER_HEIGHT - 1],
        newlines(bytes) >= BUFFER_HEIGHT - 1,
    ensures
        first.write_string(bytes) == second.write_string(bytes),
{
    let clean = sanitized(bytes);
    lemma_sanitized_newlines(bytes);
    lemma_newlines_scroll(first, clean);
    lemma_agreement_grows(first, second, 0, clean);
    assert(first.write_bytes(clean).rows =~= second.write_bytes(clean).rows);
}

} // verus!
