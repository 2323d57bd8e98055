//! The finished puzzle as text: plain lines, a pipe table, or a web page.
//!
//! Nothing here prints. Each form is handed back as strings, for the caller
//! to write where it wants them.

use vstd::prelude::*;
use vstd::string::*;
use build_html::{Container, Html, HtmlContainer, HtmlPage, Table};
use itertools::Itertools;
use widestring::U32String;
use crate::grid::{Cells, rectangular};
use crate::puzzle::WordSearch;
use crate::text::texts;

verus! {

/// What stands for a cell in every rendering: its letter, or a dot for a blank.
pub open spec fn glyph(cell: Option<char>) -> Seq<char> {
    match cell {
        Some(letter) => seq![letter],
        None => seq!['.'],
    }
}

/// The board as rows of one-character strings.
pub open spec fn board_glyphs(cells: Cells) -> Seq<Seq<Seq<char>>> {
    Seq::new(cells.len(), |r: int| Seq::new(cells[r].len(), |c: int| glyph(cells[r][c])))
}

/// Rows of strings as rows of sequences of characters.
pub open spec fn table_texts(rows: Seq<Vec<String>>) -> Seq<Seq<Seq<char>>> {
    Seq::new(rows.len(), |r: int| texts(rows[r]@))
}

/// `parts` written one after the other with `sep` between neighbours.
pub open spec fn joined(parts: Seq<Seq<char>>, sep: Seq<char>) -> Seq<char>
    decreases parts.len(),
{
    if parts.len() == 0 {
        Seq::empty()
    } else if parts.len() == 1 {
        parts[0]
    } else {
        joined(parts.drop_last(), sep) + sep + parts.last()
    }
}

/// `unit` written `n` times.
pub open spec fn repeated(unit: Seq<char>, n: nat) -> Seq<char>
    decreases n,
{
    if n == 0 {
        Seq::empty()
    } else {
        repeated(unit, (n - 1) as nat) + unit
    }
}

/// The lines that `textwrap` breaks `text` into at `width` columns.
pub uninterp spec fn wrapped(text: Seq<char>, width: int) -> Seq<Seq<char>>;

/// The web page that `build_html` writes for a title, a style sheet, a
/// heading of a level, and a container of class `container_class` that holds
/// a table of class `table_class` made of `rows`, and a paragraph.
pub uninterp spec fn html_page_of(
    title: Seq<char>,
    style: Seq<char>,
    level: int,
    heading: Seq<char>,
    class_attr: Seq<char>,
    table_class: Seq<char>,
    container_class: Seq<char>,
    rows: Seq<Seq<Seq<char>>>,
    paragraph: Seq<char>,
) -> Seq<char>;

/// `U32String::from_chars` followed by `to_string_lossy` of `widestring`: a
/// wide string of the one character `c`, decoded to a `String`. A `char` is a
/// valid code point, so nothing is replaced: the string is `c` alone.
#[verifier::external_body]
fn char_text(c: char) -> (s: String)
    ensures
        s@ == seq![c],
{
    U32String::from_chars(vec![c]).to_string_lossy()
}

/// `Itertools::join` of `itertools` on the strings of `parts`: each string as
/// it is written, with `sep` between neighbours, and the empty string for no
/// parts.
#[verifier::external_body]
fn join_with(parts: &Vec<String>, sep: &str) -> (s: String)
    ensures
        s@ == joined(texts(parts@), sep@),
{
    parts.iter().join(sep)
}

/// `textwrap::wrap` with a plain width: the lines that `text` is broken into.
/// The contract only names that result.
#[verifier::external_body]
fn wrap_text(text: &str, width: usize) -> (lines: Vec<String>)
    ensures
        texts(lines@) == wrapped(text@, width as int),
{
    textwrap::wrap(text, width).into_iter().map(|line| line.into_owned()).collect()
}

/// A page of `build_html`, made with `HtmlPage::new`, `with_title`,
/// `with_style`, `with_header`, `with_container` (a default `Container` given
/// `with_attributes`, `with_table` of `Table::from` given `with_attributes`,
/// and `with_paragraph`), written out with `to_html_string`. `with_header`
/// panics on a level outside 1 to 6, which `requires` leaves out. The contract
/// only names the result.
#[verifier::external_body]
fn html_page_text(
    title: &str,
    style: &str,
    level: u8,
    heading: &str,
    class_attr: &str,
    table_class: &str,
    container_class: &str,
    rows: Vec<Vec<String>>,
    paragraph: String,
) -> (page: String)
    requires
        1 <= level <= 6,
    ensures
        page@ == html_page_of(
            title@,
            style@,
            level as int,
            heading@,
            class_attr@,
            table_class@,
            container_class@,
            table_texts(rows@),
            paragraph@,
        ),
{
    let table = Table::from(rows).with_attributes([(class_attr, table_class)]);
    let container = Container::default()
        .with_attributes([(class_attr, container_class)])
        .with_table(table)
        .with_paragraph(paragraph);
    HtmlPage::new()
        .with_title(title)
        .with_style(style)
        .with_header(level, heading)
        .with_container(container)
        .to_html_string()
}

/// The string that stands for `cell`.
pub fn cell_text(cell: Option<char>) -> (s: String)
    ensures
        s@ == glyph(cell),
{
    match cell {
        Some(letter) => char_text(letter),
        None => {
            proof {
                reveal_strlit(".");
            }
            let s = String::from_str(".");
            assert(s@ =~= seq!['.']);
            s
        },
    }
}

/// The list of placed words as one line: the words with a space between them.
pub open spec fn word_line(placed: Seq<Seq<char>>) -> Seq<char> {
    joined(placed, " "@)
}

/// The column at which the list of words is broken: the width of a row of the
/// board written with a space between its cells.
pub open spec fn footer_width(size: nat) -> int {
    2 * size - 1
}

/// The lines under the board in the plain and the pipe-table form: an empty
/// line, then the list of words broken at the width of the board.
pub open spec fn footer_lines(placed: Seq<Seq<char>>, size: nat) -> Seq<Seq<char>> {
    seq![Seq::<char>::empty()] + wrapped(word_line(placed), footer_width(size))
}

/// The plain form: each row of the board with a space between its cells, then
/// the footer.
pub open spec fn text_layout(cells: Cells, placed: Seq<Seq<char>>, size: nat) -> Seq<Seq<char>> {
    Seq::new(cells.len(), |r: int| joined(board_glyphs(cells)[r], " "@)) + footer_lines(
        placed,
        size,
    )
}

/// A row of a pipe table.
pub open spec fn md_row(cells: Seq<Seq<char>>) -> Seq<char> {
    "| "@ + joined(cells, " | "@) + " |"@
}

/// The pipe-table form: a caption and an empty line, a header row of empty
/// cells, the rule under it, one table row for each row of the board, then
/// the footer.
pub open spec fn md_layout(cells: Cells, placed: Seq<Seq<char>>, size: nat) -> Seq<Seq<char>> {
    seq![
        "Word Search:"@,
        Seq::<char>::empty(),
        "|"@ + repeated(" |"@, size),
        md_row(Seq::new(size, |i: int| "---"@)),
    ] + Seq::new(cells.len(), |r: int| md_row(board_glyphs(cells)[r])) + footer_lines(placed, size)
}

/// The style sheet of the web page.
pub open spec fn page_style() -> Seq<char> {
    "div.wordsearch{width: min-content;} \n        table{table-layout: fixed; border-collapse: collapse;} \n        td{font-size: 30px; border: 1px solid black; text-align: center;} \n        p{width: fit-content;font-size: 20px;}"@
}

/// The web page: a title, the style sheet, a heading, and a container with
/// the board as a table and the list of words as a paragraph.
pub open spec fn html_layout(cells: Cells, placed: Seq<Seq<char>>) -> Seq<char> {
    html_page_of(
        "Word Search"@,
        page_style(),
        1,
        "Word Search:"@,
        "class"@,
        "wsboard"@,
        "wordsearch"@,
        board_glyphs(cells),
        word_line(placed),
    )
}

/// A row of a pipe table with the given cells.
fn md_row_text(cells: &Vec<String>) -> (s: String)
    ensures
        s@ == md_row(texts(cells@)),
{
    let inner = join_with(cells, " | ");
    String::from_str("| ").concat(inner.as_str()).concat(" |")
}

impl WordSearch {
    /// The board as rows of one-character strings, a dot for each blank.
    pub fn get_board_strings(&self) -> (rows: Vec<Vec<String>>)
        requires
            self.wf(),
        ensures
            table_texts(rows@) == board_glyphs(self.cells()),
    {
        proof {
            self.lemma_wf_shape();
        }
        let size = self.size();
        let mut rows: Vec<Vec<String>> = Vec::new();
        let mut r: usize = 0;
        while r < size
            invariant
                r <= size,
                size == self.size(),
                self.wf(),
                rectangular(self.cells(), size as nat, size as nat),
                rows@.len() == r,
                forall|i: int|
                    0 <= i < r ==> texts((#[trigger] rows@[i])@) == board_glyphs(self.cells())[i],
            decreases size - r,
        {
            let mut row: Vec<String> = Vec::new();
            let mut c: usize = 0;
            while c < size
                invariant
                    r < size,
                    c <= size,
                    size == self.size(),
                    self.wf(),
                    rectangular(self.cells(), size as nat, size as nat),
                    row@.len() == c,
                    forall|j: int|
                        0 <= j < c ==> (#[trigger] row@[j])@ == glyph(self.cells()[r as int][j]),
                decreases size - c,
            {
                row.push(cell_text(self.cell(r, c)));
                c += 1;
            }
            assert(texts(row@) =~= board_glyphs(self.cells())[r as int]);
            rows.push(row);
            r += 1;
        }
        assert(table_texts(rows@) =~= board_glyphs(self.cells()));
        rows
    }

    /// The list of placed words as one line.
    pub fn placed_line(&self) -> (line: String)
        ensures
            line@ == word_line(self.placed()),
    {
        join_with(self.placed_words(), " ")
    }

    /// The lines under the board.
    fn footer(&self) -> (lines: Vec<String>)
        requires
            self.wf(),
            self.size() <= usize::MAX / 2,
        ensures
            texts(lines@) == footer_lines(self.placed(), self.size() as nat),
    {
        proof {
            self.lemma_wf_shape();
        }
        let line = self.placed_line();
        let mut lines: Vec<String> = Vec::new();
        lines.push(String::new());
        let mut wrapped_lines = wrap_text(line.as_str(), self.size() * 2 - 1);
        let ghost tail = wrapped_lines@;
        lines.append(&mut wrapped_lines);
        assert(texts(lines@) =~= seq![Seq::<char>::empty()] + texts(tail));
        lines
    }

    /// The plain form of the puzzle, line by line.
    pub fn text_lines(&self) -> (lines: Vec<String>)
        requires
            self.wf(),
            self.size() <= usize::MAX / 2,
        ensures
            texts(lines@) == text_layout(self.cells(), self.placed(), self.size() as nat),
    {
        proof {
            self.lemma_wf_shape();
        }
        let rows = self.get_board_strings();
        let mut lines: Vec<String> = Vec::new();
        let n = rows.len();
        let mut r: usize = 0;
        while r < n
            invariant
                r <= n,
                n == rows@.len(),
                table_texts(rows@) == board_glyphs(self.cells()),
                lines@.len() == r,
                forall|i: int|
                    0 <= i < r ==> (#[trigger] lines@[i])@ == joined(
                        board_glyphs(self.cells())[i],
                        " "@,
                    ),
            decreases n - r,
        {
            assert(table_texts(rows@)[r as int] == texts(rows@[r as int]@));
            lines.push(join_with(&rows[r], " "));
            r += 1;
        }
        let ghost head = lines@;
        let mut footer = self.footer();
        let ghost tail = footer@;
        lines.append(&mut footer);
        assert(texts(lines@) =~= texts(head) + texts(tail));
        assert(texts(head) =~= Seq::new(
            self.cells().len(),
            |r: int| joined(board_glyphs(self.cells())[r], " "@),
        )) by {
            assert(table_texts(rows@).len() == board_glyphs(self.cells()).len());
        }
        lines
    }

    /// The pipe-table form of the puzzle, line by line.
    pub fn md_lines(&self) -> (lines: Vec<String>)
        requires
            self.wf(),
            self.size() <= usize::MAX / 2,
        ensures
            texts(lines@) == md_layout(self.cells(), self.placed(), self.size() as nat),
    {
        proof {
            self.lemma_wf_shape();
        }
        let rows = self.get_board_strings();
        let size = self.size();
        let mut header = String::from_str("|");
        let mut dashes: Vec<String> = Vec::new();
        let mut i: usize = 0;
        while i < size
            invariant
                i <= size,
                header@ == "|"@ + repeated(" |"@, i as nat),
                dashes@.len() == i,
                forall|j: int| 0 <= j < i ==> (#[trigger] dashes@[j])@ == "---"@,
            decreases size - i,
        {
            header.append(" |");
            assert(header@ =~= "|"@ + repeated(" |"@, (i + 1) as nat));
            dashes.push(String::from_str("---"));
            i += 1;
        }
        assert(texts(dashes@) =~= Seq::new(size as nat, |i: int| "---"@));
        let mut lines: Vec<String> = Vec::new();
        lines.push(String::from_str("Word Search:"));
        lines.push(String::new());
        lines.push(header);
        lines.push(md_row_text(&dashes));
        let ghost top = lines@;
        let ghost caption = seq![
            "Word Search:"@,
            Seq::<char>::empty(),
            "|"@ + repeated(" |"@, size as nat),
            md_row(Seq::new(size as nat, |i: int| "---"@)),
        ];
        assert(texts(top) =~= caption);
        let n = rows.len();
        let mut r: usize = 0;
        while r < n
            invariant
                r <= n,
                n == rows@.len(),
                table_texts(rows@) == board_glyphs(self.cells()),
                lines@.len() == 4 + r,
                top.len() == 4,
                texts(top) == caption,
                forall|i: int| 0 <= i < 4 ==> lines@[i] == top[i],
                forall|i: int|
                    4 <= i < 4 + r ==> (#[trigger] lines@[i])@ == md_row(
                        board_glyphs(self.cells())[i - 4],
                    ),
            decreases n - r,
        {
            assert(table_texts(rows@)[r as int] == texts(rows@[r as int]@));
            lines.push(md_row_text(&rows[r]));
            r += 1;
        }
        let ghost head = lines@;
        let mut footer = self.footer();
        let ghost tail = footer@;
        lines.append(&mut footer);
        assert(texts(lines@) =~= texts(head) + texts(tail));
        assert(texts(head) =~= caption + Seq::new(
            self.cells().len(),
            |r: int| md_row(board_glyphs(self.cells())[r]),
        )) by {
            assert(table_texts(rows@).len() == board_glyphs(self.cells()).len());
            assert forall|i: int| 0 <= i < 4 implies texts(head)[i] == caption[i] by {
                assert(texts(top)[i] == top[i]@);
            }
        }
        lines
    }

    /// The puzzle as a web page.
    pub fn html_page(&self) -> (page: String)
        requires
            self.wf(),
        ensures
            page@ == html_layout(self.cells(), self.placed()),
    {
        let rows = self.get_board_strings();
        let words = self.placed_line();
        html_page_text(
            "Word Search",
            "div.wordsearch{width: min-content;} \n        table{table-layout: fixed; border-collapse: collapse;} \n        td{font-size: 30px; border: 1px solid black; text-align: center;} \n        p{width: fit-content;font-size: 20px;}",
            1,
            "Word Search:",
            "class",
            "wsboard",
            "wordsearch",
            rows,
            words,
        )
    }
}

} // verus!
