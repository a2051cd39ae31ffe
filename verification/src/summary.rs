//! `StepSummary`: a builder for the markdown of `$GITHUB_STEP_SUMMARY`.
//!
//! Each builder method appends one block to the buffer and leaves what is
//! already there untouched; flushing the buffer to the file is the caller's
//! part.
use vstd::prelude::*;

use std::path::PathBuf;

use crate::text::push_char;

pub mod status;

verus! {

/// The heading level that is written: the requested one, clamped to 1..=6.
pub open spec fn clamped_level(level: nat) -> nat {
    if level < 1 {
        1
    } else if level > 6 {
        6
    } else {
        level
    }
}

/// `n` copies of `s`, one after the other.
pub open spec fn repeated(s: Seq<char>, n: nat) -> Seq<char>
    decreases n,
{
    if n == 0 {
        seq![]
    } else {
        repeated(s, (n - 1) as nat) + s
    }
}

/// `#` repeated to the clamped level, a space, the text and a blank line.
pub open spec fn heading_block(level: nat, text: Seq<char>) -> Seq<char> {
    repeated(seq!['#'], clamped_level(level)) + seq![' '] + text + seq!['\n', '\n']
}

/// The text followed by a blank line.
pub open spec fn paragraph_block(text: Seq<char>) -> Seq<char> {
    text + seq!['\n', '\n']
}

/// A fenced code block with the language tag; a line feed closes the body
/// unless it already ends with one.
pub open spec fn code_block_text(lang: Seq<char>, body: Seq<char>) -> Seq<char> {
    let fence = seq!['`', '`', '`'];
    let closing = if body.len() > 0 && body.last() == '\n' {
        seq![]
    } else {
        seq!['\n']
    };
    fence + lang + seq!['\n'] + body + closing + fence + seq!['\n', '\n']
}

/// One table cell: ` <text> |`.
pub open spec fn table_cell(text: Seq<char>) -> Seq<char> {
    seq![' '] + text + seq![' ', '|']
}

/// One table line: `|` followed by the cells and a line feed.
pub open spec fn table_line(cells: Seq<Seq<char>>) -> Seq<char> {
    seq!['|'] + cells.flat_map(|c: Seq<char>| table_cell(c)) + seq!['\n']
}

/// A markdown table: the header line, a `---|` separator per header, every
/// row, and a blank line.
pub open spec fn table_text(headers: Seq<Seq<char>>, rows: Seq<Seq<Seq<char>>>) -> Seq<char> {
    table_line(headers) + seq!['|'] + repeated(separator_cell(), headers.len())
        + seq!['\n'] + rows.flat_map(|r: Seq<Seq<char>>| table_line(r)) + seq!['\n']
}

/// One bullet: `- <text>` and a line feed.
pub open spec fn bullet_line(text: Seq<char>) -> Seq<char> {
    seq!['-', ' '] + text + seq!['\n']
}

/// A bullet list followed by a blank line.
pub open spec fn bullets_text(items: Seq<Seq<char>>) -> Seq<char> {
    items.flat_map(|i: Seq<char>| bullet_line(i)) + seq!['\n']
}

/// Builder for the step-summary markdown: the destination path and the
/// markdown buffered so far.
#[derive(Debug)]
pub struct StepSummary {
    target: PathBuf,
    buf: String,
}

impl View for StepSummary {
    type V = Seq<char>;

    /// The markdown buffered so far.
    closed spec fn view(&self) -> Seq<char> {
        self.buf@
    }
}

impl StepSummary {
    /// The file the markdown is meant for.
    pub closed spec fn destination(&self) -> PathBuf {
        self.target
    }

    /// An empty summary meant for `path`.
    pub fn to_file(path: PathBuf) -> (r: Self)
        ensures
            r@ == Seq::<char>::empty(),
            r.destination() == path,
    {
        StepSummary { target: path, buf: String::new() }
    }

    /// Appends `# Heading` (level 1) up to `###### Heading` (level 6); the
    /// level is clamped to that range.
    pub fn heading(&mut self, level: usize, text: &str) -> (r: &mut Self)
        ensures
            (*r)@ == old(self)@ + heading_block(level as nat, text@),
            r.destination() == old(self).destination(),
            *final(self) == *final(r),
    {
        let ghost start = self.buf@;
        let lvl: usize = if level < 1 {
            1
        } else if level > 6 {
            6
        } else {
            level
        };
        let mut i: usize = 0;
        while i < lvl
            invariant
                i <= lvl,
                self.target == old(self).target,
                self.buf@ == start + repeated(seq!['#'], i as nat),
            decreases lvl - i,
        {
            push_char(&mut self.buf, '#');
            i = i + 1;
        }
        push_char(&mut self.buf, ' ');
        self.buf.append(text);
        push_char(&mut self.buf, '\n');
        push_char(&mut self.buf, '\n');
        assert(self.buf@ =~= start + heading_block(level as nat, text@));
        self
    }

    /// Appends a plain paragraph followed by a blank line.
    pub fn paragraph(&mut self, text: &str) -> (r: &mut Self)
        ensures
            (*r)@ == old(self)@ + paragraph_block(text@),
            r.destination() == old(self).destination(),
            *final(self) == *final(r),
    {
        let ghost start = self.buf@;
        self.buf.append(text);
        push_char(&mut self.buf, '\n');
        push_char(&mut self.buf, '\n');
        assert(self.buf@ =~= start + paragraph_block(text@));
        self
    }

    /// Appends a code block fenced with the given language tag.
    pub fn code_block(&mut self, lang: &str, body: &str) -> (r: &mut Self)
        ensures
            (*r)@ == old(self)@ + code_block_text(lang@, body@),
            r.destination() == old(self).destination(),
            *final(self) == *final(r),
    {
        let ghost start = self.buf@;
        push_fence(&mut self.buf);
        self.buf.append(lang);
        push_char(&mut self.buf, '\n');
        self.buf.append(body);
        let n = body.unicode_len();
        if !(n > 0 && body.get_char(n - 1) == '\n') {
            push_char(&mut self.buf, '\n');
        }
        push_fence(&mut self.buf);
        push_char(&mut self.buf, '\n');
        push_char(&mut self.buf, '\n');
        assert(self.buf@ =~= start + code_block_text(lang@, body@));
        self
    }

    /// Appends a markdown table: `headers` become the column titles, each
    /// row of `rows` a line of cells.
    pub fn table(&mut self, headers: &[&str], rows: Vec<Vec<&str>>) -> (r: &mut Self)
        ensures
            (*r)@ == old(self)@ + table_text(headers.deep_view(), rows.deep_view()),
            r.destination() == old(self).destination(),
            *final(self) == *final(r),
    {
        let ghost start = self.buf@;
        let ghost hs = headers.deep_view();
        let ghost rs = rows.deep_view();
        push_table_line(&mut self.buf, headers);
        push_char(&mut self.buf, '|');
        let mut i: usize = 0;
        while i < headers.len()
            invariant
                i <= headers.len(),
                hs == headers.deep_view(),
                self.target == old(self).target,
                self.buf@ == start + table_line(hs) + seq!['|'] + repeated(separator_cell(), i as nat),
            decreases headers.len() - i,
        {
            let ghost before = self.buf@;
            push_char(&mut self.buf, '-');
            push_char(&mut self.buf, '-');
            push_char(&mut self.buf, '-');
            push_char(&mut self.buf, '|');
            assert(self.buf@ =~= before + seq!['-', '-', '-', '|']);
            i = i + 1;
        }
        assert(hs.len() == headers@.len());
        push_char(&mut self.buf, '\n');
        let ghost head = self.buf@;
        let ghost f = |r: Seq<Seq<char>>| table_line(r);
        let mut j: usize = 0;
        while j < rows.len()
            invariant
                j <= rows.len(),
                self.target == old(self).target,
                rs == rows.deep_view(),
                f == (|r: Seq<Seq<char>>| table_line(r)),
                self.buf@ == head + rs.take(j as int).flat_map(f),
            decreases rows.len() - j,
        {
            proof {
                rs.lemma_flat_map_take_append(f, j as int);
            }
            let ghost before = self.buf@;
            push_table_line(&mut self.buf, rows[j].as_slice());
            assert(rows[j as int].deep_view() == rs[j as int]);
            assert(self.buf@ =~= before + f(rs[j as int]));
            j = j + 1;
        }
        assert(rs.take(rows.len() as int) =~= rs);
        push_char(&mut self.buf, '\n');
        assert(self.buf@ =~= start + table_text(hs, rs));
        self
    }

    /// Appends a bullet list.
    pub fn bullets(&mut self, items: &[&str]) -> (r: &mut Self)
        ensures
            (*r)@ == old(self)@ + bullets_text(items.deep_view()),
            r.destination() == old(self).destination(),
            *final(self) == *final(r),
    {
        let ghost start = self.buf@;
        let ghost its = items.deep_view();
        let ghost f = |i: Seq<char>| bullet_line(i);
        let mut k: usize = 0;
        while k < items.len()
            invariant
                k <= items.len(),
                self.target == old(self).target,
                its == items.deep_view(),
                f == (|i: Seq<char>| bullet_line(i)),
                self.buf@ == start + its.take(k as int).flat_map(f),
            decreases items.len() - k,
        {
            proof {
                its.lemma_flat_map_take_append(f, k as int);
            }
            let ghost before = self.buf@;
            push_char(&mut self.buf, '-');
            push_char(&mut self.buf, ' ');
            self.buf.append(items[k]);
            push_char(&mut self.buf, '\n');
            assert(items@[k as int]@ == its[k as int]);
            assert(self.buf@ =~= before + f(its[k as int]));
            k = k + 1;
        }
        assert(its.take(items.len() as int) =~= its);
        push_char(&mut self.buf, '\n');
        assert(self.buf@ =~= start + bullets_text(its));
        self
    }

    /// Appends a status badge line (see the `status` constants).
    pub fn status(&mut self, text: &str) -> (r: &mut Self)
        ensures
            (*r)@ == old(self)@ + paragraph_block(text@),
            r.destination() == old(self).destination(),
            *final(self) == *final(r),
    {
        let ghost start = self.buf@;
        self.buf.append(text);
        push_char(&mut self.buf, '\n');
        push_char(&mut self.buf, '\n');
        assert(self.buf@ =~= start + paragraph_block(text@));
        self
    }

    /// The markdown buffered so far, without flushing it.
    pub fn as_str(&self) -> (r: &str)
        ensures
            r@ == self@,
    {
        self.buf.as_str()
    }

    /// The file the markdown is meant for.
    pub fn target_path(&self) -> (r: &PathBuf)
        ensures
            *r == self.destination(),
    {
        &self.target
    }
}

/// Appends a code fence.
fn push_fence(out: &mut String)
    ensures
        final(out)@ == old(out)@ + seq!['`', '`', '`'],
{
    push_char(out, '`');
    push_char(out, '`');
    push_char(out, '`');
    assert(final(out)@ =~= old(out)@ + seq!['`', '`', '`']);
}

/// Appends one table line made of `cells`.
fn push_table_line(out: &mut String, cells: &[&str])
    ensures
        final(out)@ == old(out)@ + table_line(cells.deep_view()),
{
    let ghost start = out@;
    let ghost cs = cells.deep_view();
    let ghost f = |c: Seq<char>| table_cell(c);
    push_char(out, '|');
    let mut i: usize = 0;
    while i < cells.len()
        invariant
            i <= cells.len(),
            cs == cells.deep_view(),
            f == (|c: Seq<char>| table_cell(c)),
            out@ == start + seq!['|'] + cs.take(i as int).flat_map(f),
        decreases cells.len() - i,
    {
        proof {
            cs.lemma_flat_map_take_append(f, i as int);
        }
        let ghost before = out@;
        push_char(out, ' ');
        out.append(cells[i]);
        push_char(out, ' ');
        push_char(out, '|');
        assert(cells@[i as int]@ == cs[i as int]);
        assert(out@ =~= before + f(cs[i as int]));
        i = i + 1;
    }
    assert(cs.take(cells.len() as int) =~= cs);
    push_char(out, '\n');
    assert(out@ =~= start + table_line(cs));
}

/// Law: heading levels outside 1..=6 are clamped: a level below 1 writes
/// the same block as level 1, a level above 6 the same as level 6, and the
/// block starts with between one and six `#`.
pub proof fn lemma_heading_levels_clamp(level: nat, text: Seq<char>)
    ensures
        level < 1 ==> heading_block(level, text) == heading_block(1, text),
        level > 6 ==> heading_block(level, text) == heading_block(6, text),
        1 <= clamped_level(level) <= 6,
        heading_block(level, text).take(clamped_level(level) as int) == repeated(
            seq!['#'],
            clamped_level(level),
        ),
{
    lemma_repeated_len(clamped_level(level));
    let h = heading_block(level, text);
    assert(h.take(clamped_level(level) as int) =~= repeated(seq!['#'], clamped_level(level)));
}

proof fn lemma_repeated_len(n: nat)
    ensures
        repeated(seq!['#'], n).len() == n,
    decreases n,
{
    if n > 0 {
        lemma_repeated_len((n - 1) as nat);
    }
}

proof fn lemma_repeated_hashes(n: nat)
    ensures
        repeated(seq!['#'], n).len() == n,
        forall|i: int| 0 <= i < n ==> #[trigger] repeated(seq!['#'], n)[i] == '#',
    decreases n,
{
    if n > 0 {
        lemma_repeated_hashes((n - 1) as nat);
        let r = repeated(seq!['#'], n);
        assert forall|i: int| 0 <= i < n implies #[trigger] r[i] == '#' by {
            if i < n - 1 {
                assert(r[i] == repeated(seq!['#'], (n - 1) as nat)[i]);
            }
        }
    }
}

/// Law: a heading is as many `#` as the level asks (a level below 1 gives
/// one, a level above 6 gives six, a level in 1..=6 is kept), then a space,
/// the text and a blank line.
pub proof fn lemma_heading_shape(level: nat, text: Seq<char>)
    ensures
        ({
            let k: int = if level == 0 {
                1
            } else if level > 6 {
                6
            } else {
                level as int
            };
            let h = heading_block(level, text);
            &&& h.len() == k + 1 + text.len() + 2
            &&& forall|i: int| 0 <= i < k ==> #[trigger] h[i] == '#'
            &&& h[k] == ' '
            &&& h.subrange(k + 1, k + 1 + text.len()) == text
            &&& h[h.len() - 2] == '\n'
            &&& h[h.len() - 1] == '\n'
        }),
{
    lemma_repeated_hashes(clamped_level(level));
    let k = clamped_level(level) as int;
    let h = heading_block(level, text);
    assert(h.subrange(k + 1, k + 1 + text.len()) =~= text);
    assert forall|i: int| 0 <= i < k implies #[trigger] h[i] == '#' by {
        assert(h[i] == repeated(seq!['#'], clamped_level(level))[i]);
    }
}

/// Law: the rows of a table come out in the order given: an empty table is
/// the header line, the separator line and a blank line, and one more row
/// puts its line right before the closing blank line.
pub proof fn lemma_table_rows_in_order(
    headers: Seq<Seq<char>>,
    rows: Seq<Seq<Seq<char>>>,
    row: Seq<Seq<char>>,
)
    ensures
        table_text(headers, Seq::<Seq<Seq<char>>>::empty()) == table_line(headers) + seq!['|']
            + repeated(separator_cell(), headers.len()) + seq!['\n', '\n'],
        table_text(headers, rows.push(row)) == table_text(headers, rows).drop_last() + table_line(
            row,
        ) + seq!['\n'],
{
    let f = |r: Seq<Seq<char>>| table_line(r);
    rows.lemma_flat_map_push(f, row);
    assert(Seq::<Seq<Seq<char>>>::empty().flat_map(f) =~= Seq::<char>::empty());
    let head = table_line(headers) + seq!['|'] + repeated(separator_cell(), headers.len()) + seq![
        '\n',
    ];
    assert(table_text(headers, rows) =~= head + rows.flat_map(f) + seq!['\n']);
    assert(table_text(headers, rows).drop_last() =~= head + rows.flat_map(f));
    assert(table_text(headers, rows.push(row)) =~= head + rows.flat_map(f) + f(row) + seq![
        '\n',
    ]);
    assert(table_text(headers, Seq::<Seq<Seq<char>>>::empty()) =~= head + seq!['\n']);
}

/// Law: the cells of a table line come out in the order given: an empty
/// line is `|` and a line feed, and one more cell `c` puts ` c |` right
/// before the line feed.
pub proof fn lemma_table_cells_in_order(cells: Seq<Seq<char>>, cell: Seq<char>)
    ensures
        table_line(Seq::<Seq<char>>::empty()) == seq!['|', '\n'],
        table_line(cells.push(cell)) == table_line(cells).drop_last() + seq![' '] + cell + seq![
            ' ',
            '|',
            '\n',
        ],
{
    let f = |c: Seq<char>| table_cell(c);
    cells.lemma_flat_map_push(f, cell);
    assert(Seq::<Seq<char>>::empty().flat_map(f) =~= Seq::<char>::empty());
    assert(table_line(Seq::<Seq<char>>::empty()) =~= seq!['|', '\n']);
    assert(table_line(cells).drop_last() =~= seq!['|'] + cells.flat_map(f));
    assert(table_line(cells.push(cell)) =~= seq!['|'] + cells.flat_map(f) + f(cell) + seq!['\n']);
    assert(table_line(cells.push(cell)) =~= table_line(cells).drop_last() + seq![' '] + cell
        + seq![' ', '|', '\n']);
}

/// One separator cell, `---|`.
pub open spec fn separator_cell() -> Seq<char> {
    seq!['-', '-', '-', '|']
}

/// Law: the separator line has one `---|` per header: its length is four
/// per header, every fourth character is `|` and the others are `-`.
pub proof fn lemma_table_separator(n: nat)
    ensures
        repeated(separator_cell(), n).len() == 4 * n,
        forall|i: int|
            0 <= i < 4 * n ==> #[trigger] repeated(separator_cell(), n)[i] == if i % 4 == 3 {
                '|'
            } else {
                '-'
            },
    decreases n,
{
    if n > 0 {
        lemma_table_separator((n - 1) as nat);
        let r = repeated(separator_cell(), n);
        let p = repeated(separator_cell(), (n - 1) as nat);
        assert forall|i: int| 0 <= i < 4 * n implies #[trigger] r[i] == if i % 4 == 3 {
            '|'
        } else {
            '-'
        } by {
            if i < 4 * (n - 1) {
                assert(r[i] == p[i]);
            } else {
                assert(r[i] == separator_cell()[i - 4 * (n - 1)]);
                assert(i % 4 == i - 4 * (n - 1));
            }
        }
    }
}

/// Law: a code block is the fence, the language tag and a line feed, the
/// body, and the closing fence on a line of its own: the character before
/// the closing fence is always a line feed, and a line feed is added only
/// where the body does not already end with one.
pub proof fn lemma_code_block_closes_on_own_line(lang: Seq<char>, body: Seq<char>)
    ensures
        ({
            let t = code_block_text(lang, body);
            let n = t.len() as int;
            let l = lang.len() as int;
            let b = body.len() as int;
            let base = 9 + l + b;
            &&& t.take(3) == seq!['`', '`', '`']
            &&& t.subrange(3, 3 + l) == lang
            &&& t[3 + l] == '\n'
            &&& t.subrange(4 + l, 4 + l + b) == body
            &&& t.skip(n - 5) == seq!['`', '`', '`', '\n', '\n']
            &&& t[n - 6] == '\n'
            &&& (n == base || n == base + 1)
            &&& (n == base <==> (body.len() > 0 && body.last() == '\n'))
        }),
{
    let t = code_block_text(lang, body);
    let n = t.len() as int;
    let l = lang.len() as int;
    let b = body.len() as int;
    assert(t.take(3) =~= seq!['`', '`', '`']);
    assert(t.subrange(3, 3 + l) =~= lang);
    assert(t.subrange(4 + l, 4 + l + b) =~= body);
    assert(t.skip(n - 5) =~= seq!['`', '`', '`', '\n', '\n']);
    if body.len() > 0 && body.last() == '\n' {
        assert(t[n - 6] == body[body.len() - 1]);
    }
}

} // verus!
