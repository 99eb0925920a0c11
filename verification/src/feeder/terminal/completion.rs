//! Completion of the word before the cursor. Looking for the candidates is
//! for the caller; here it is decided what is looked for, what the line
//! becomes, and how a list of candidates is laid out.

use vstd::prelude::*;
use unicode_width::UnicodeWidthStr;
use crate::feeder::terminal::Terminal;
use crate::shell::ShellCore;
use crate::text::to_chars;
use crate::text::from_chars;
use crate::text::substring;
use crate::text::views;
use crate::text::starts_at;

verus! {

/// The number of columns that a text takes on a terminal, as the crate
/// `unicode_width` counts them.
pub uninterp spec fn display_width(s: Seq<char>) -> nat;

/// `UnicodeWidthStr::width` of the crate `unicode_width`: the number of
/// columns that the text takes on a terminal. It depends on nothing but the
/// text.
#[verifier::external_body]
fn width_of(s: &str) -> (w: usize)
    ensures
        w == display_width(s@),
{
    UnicodeWidthStr::width(s)
}

/// How long the beginning is that two texts have in common.
pub open spec fn common_prefix_length(a: Seq<char>, b: Seq<char>) -> nat
    decreases a.len(),
{
    if a.len() > 0 && b.len() > 0 && a[0] == b[0] {
        1 + common_prefix_length(a.drop_first(), b.drop_first())
    } else {
        0
    }
}

/// The common beginning of `a` and `b` is a beginning of both, and behind it
/// the two differ or one of them ends.
pub proof fn lemma_common_prefix(a: Seq<char>, b: Seq<char>)
    ensures
        common_prefix_length(a, b) <= a.len(),
        common_prefix_length(a, b) <= b.len(),
        forall|i: int| 0 <= i < common_prefix_length(a, b) ==> a[i] == b[i],
        common_prefix_length(a, b) < a.len() && common_prefix_length(a, b) < b.len() ==> a[common_prefix_length(
            a,
            b,
        ) as int] != b[common_prefix_length(a, b) as int],
    decreases a.len(),
{
    if a.len() > 0 && b.len() > 0 && a[0] == b[0] {
        lemma_common_prefix(a.drop_first(), b.drop_first());
        let n = common_prefix_length(a.drop_first(), b.drop_first());
        assert forall|i: int| 0 <= i < n + 1 implies a[i] == b[i] by {
            if i > 0 {
                assert(a.drop_first()[i - 1] == a[i]);
                assert(b.drop_first()[i - 1] == b[i]);
            }
        }
        if n + 1 < a.len() && n + 1 < b.len() {
            assert(a.drop_first()[n as int] == a[n as int + 1]);
            assert(b.drop_first()[n as int] == b[n as int + 1]);
        }
    }
}

/// How long the beginning is that `chars` and `s` have in common.
pub fn common_length(chars: &Vec<char>, s: &String) -> (n: usize)
    ensures
        n == common_prefix_length(chars@, s@),
{
    let other = to_chars(s.as_str());
    let mut i: usize = 0;
    proof {
        assert(chars@.skip(0) =~= chars@);
        assert(other@.skip(0) =~= other@);
    }
    while i < chars.len() && i < other.len() && chars[i] == other[i]
        invariant
            i <= chars.len(),
            i <= other.len(),
            common_prefix_length(chars@, other@) == i + common_prefix_length(
                chars@.skip(i as int),
                other@.skip(i as int),
            ),
        decreases chars.len() - i,
    {
        assert(chars@.skip(i as int).drop_first() =~= chars@.skip(i + 1));
        assert(other@.skip(i as int).drop_first() =~= other@.skip(i + 1));
        assert(chars@.skip(i as int)[0] == chars@[i as int]);
        assert(other@.skip(i as int)[0] == other@[i as int]);
        i += 1;
    }
    proof {
        if i < chars.len() && i < other.len() {
            assert(chars@.skip(i as int)[0] == chars@[i as int]);
            assert(other@.skip(i as int)[0] == other@[i as int]);
        }
    }
    i
}

/// The length of the beginning that all of `paths` have in common with the
/// first of them.
pub open spec fn common_all(paths: Seq<Seq<char>>, n: int) -> nat
    decreases n,
{
    if n <= 1 || paths.len() == 0 {
        if paths.len() == 0 {
            0
        } else {
            paths[0].len()
        }
    } else {
        let rest = common_all(paths, n - 1);
        let here = common_prefix_length(paths[0], paths[n - 1]);
        if here < rest {
            here
        } else {
            rest
        }
    }
}

/// The longest beginning that all of `paths` have in common; empty where
/// there are no paths.
pub fn common_string(paths: &Vec<String>) -> (common: String)
    ensures
        paths@.len() == 0 ==> common@.len() == 0,
        paths@.len() > 0 ==> common@ == paths@[0]@.take(
            common_all(views(paths@), paths@.len() as int) as int,
        ),
{
    if paths.len() == 0 {
        return String::new();
    }
    let ref_chars = to_chars(paths[0].as_str());
    let mut common_len = ref_chars.len();
    let mut i: usize = 1;
    let ghost all = views(paths@);
    while i < paths.len()
        invariant
            1 <= i <= paths.len(),
            all == views(paths@),
            ref_chars@ == all[0],
            common_len == common_all(all, i as int),
            common_len <= ref_chars.len(),
        decreases paths.len() - i,
    {
        let len = common_length(&ref_chars, &paths[i]);
        assert(all[i as int] == paths@[i as int]@);
        if len < common_len {
            common_len = len;
        }
        i += 1;
    }
    let out = substring(&ref_chars, 0, common_len);
    assert(out@ =~= paths@[0]@.take(common_len as int));
    out
}

/// `text` with its first occurrence of `from` replaced by `to`, where `from`
/// stands at the beginning of `text`; else `text` itself.
pub open spec fn with_prefix_replaced(text: Seq<char>, from: Seq<char>, to: Seq<char>) -> Seq<char> {
    if from.len() > 0 && from.is_prefix_of(text) {
        to + text.skip(from.len() as int)
    } else {
        text
    }
}

/// Replaces `from` at the beginning of `text` by `to`.
pub fn replace_prefix(text: &str, from: &str, to: &str) -> (out: String)
    ensures
        out@ == with_prefix_replaced(text@, from@, to@),
{
    let t = to_chars(text);
    let f = to_chars(from);
    proof {
        assert(t@.subrange(0, t@.len() as int) =~= t@);
    }
    if f.len() > 0 && starts_at(&t, 0, t.len(), &f) {
        let mut out = String::from_str(to);
        let rest = substring(&t, f.len(), t.len());
        out.append(rest.as_str());
        assert(out@ =~= to@ + text@.skip(from@.len() as int));
        out
    } else {
        String::from_str(text)
    }
}

/// The lines of a list laid out in columns, where `widths` holds the width of
/// each entry and the terminal is `cols` columns wide: every column is one
/// wider than the widest entry, the entries run down the columns, and a column
/// takes as many rows as are needed for all entries.
pub struct Layout {
    pub column_width: usize,
    pub columns: usize,
    pub rows: usize,
}

/// The largest of the widths; 0 where there are none.
pub open spec fn widest(widths: Seq<usize>) -> usize
    decreases widths.len(),
{
    if widths.len() == 0 {
        0
    } else if widths.last() > widest(widths.drop_last()) {
        widths.last()
    } else {
        widest(widths.drop_last())
    }
}

/// The layout of a list with these widths on a terminal of `cols` columns.
/// `None` where even one column does not fit, for an empty list, and where
/// the widest entry is as wide as numbers go; every entry then takes a line of
/// its own.
pub open spec fn layout_of(widths: Seq<usize>, cols: usize) -> Option<Layout> {
    if widths.len() == 0 || widest(widths) == usize::MAX {
        None
    } else {
        let column_width = (widest(widths) + 1) as usize;
        let columns = (cols / column_width) as usize;
        if columns == 0 {
            None
        } else {
            Some(Layout { column_width, columns, rows: ((widths.len() - 1) / columns as int + 1) as usize })
        }
    }
}

/// The entry that stands in the row `row` and the column `col`, if there is
/// one: the entries run down the columns.
pub open spec fn cell(l: Layout, len: int, row: int, col: int) -> Option<int> {
    let i = col * l.rows + row;
    if i < len {
        Some(i)
    } else {
        None
    }
}

/// The text of the row `row` from the column `col` on: each entry, filled
/// with spaces to the width of a column.
pub open spec fn row_text(
    list: Seq<Seq<char>>,
    widths: Seq<usize>,
    l: Layout,
    row: int,
    col: int,
) -> Seq<char>
    decreases l.columns - col,
{
    if col < 0 || col >= l.columns {
        Seq::empty()
    } else {
        (match cell(l, list.len() as int, row, col) {
            Some(i) => list[i] + Seq::new(
                (if l.column_width > widths[i] {
                    l.column_width - widths[i]
                } else {
                    0
                }) as nat,
                |k: int| ' ',
            ),
            None => Seq::empty(),
        }) + row_text(list, widths, l, row, col + 1)
    }
}

/// The lines that show a list: the rows of its layout, or the entries one on
/// each line where there is no layout.
pub open spec fn list_lines(list: Seq<Seq<char>>, widths: Seq<usize>, cols: usize) -> Seq<Seq<char>> {
    match layout_of(widths, cols) {
        None => list,
        Some(l) => Seq::new(l.rows as nat, |row: int| row_text(list, widths, l, row, 0)),
    }
}

fn max_width(widths: &Vec<usize>) -> (m: usize)
    ensures
        m == widest(widths@),
{
    let mut m: usize = 0;
    let mut i: usize = 0;
    assert(widths@.take(0) =~= Seq::<usize>::empty());
    while i < widths.len()
        invariant
            i <= widths.len(),
            m == widest(widths@.take(i as int)),
        decreases widths.len() - i,
    {
        assert(widths@.take(i + 1).drop_last() =~= widths@.take(i as int));
        if widths[i] > m {
            m = widths[i];
        }
        i += 1;
    }
    assert(widths@.take(i as int) =~= widths@);
    m
}

/// Lays a list out in columns, given the width of each entry.
pub fn lay_out(list: &Vec<String>, widths: &Vec<usize>, cols: usize) -> (lines: Vec<String>)
    requires
        widths@.len() == list@.len(),
    ensures
        views(lines@) == list_lines(views(list@), widths@, cols),
{
    let ghost all = views(list@);
    let widest_entry = max_width(widths);
    let mut plain = list.len() == 0 || widest_entry == usize::MAX;
    let mut column_width: usize = 1;
    let mut columns: usize = 0;
    if !plain {
        column_width = widest_entry + 1;
        columns = cols / column_width;
        if columns == 0 {
            plain = true;
        }
    }
    if plain {
        let mut lines: Vec<String> = Vec::new();
        let mut i: usize = 0;
        while i < list.len()
            invariant
                i <= list.len(),
                lines@.len() == i,
                forall|k: int| 0 <= k < i ==> (#[trigger] lines@[k])@ == list@[k]@,
            decreases list.len() - i,
        {
            lines.push(list[i].clone());
            i += 1;
        }
        assert(views(lines@) =~= all);
        return lines;
    }
    let rows: usize = (list.len() - 1) / columns + 1;
    let count: usize = list.len();
    let ghost l = Layout { column_width, columns, rows };
    let mut lines: Vec<String> = Vec::new();
    let mut row: usize = 0;
    while row < rows
        invariant
            row <= rows,
            count == list@.len(),
            widths@.len() == list@.len(),
            all == views(list@),
            l == (Layout { column_width, columns, rows }),
            layout_of(widths@, cols) == Some(l),
            lines@.len() == row,
            forall|r: int| 0 <= r < row ==> (#[trigger] lines@[r])@ == row_text(all, widths@, l, r, 0),
        decreases rows - row,
    {
        let mut line: Vec<char> = Vec::new();
        let mut col: usize = 0;
        let ghost goal = row_text(all, widths@, l, row as int, 0);
        while col < columns
            invariant
                col <= columns,
                row < rows,
                count == list@.len(),
                widths@.len() == list@.len(),
                all == views(list@),
                l == (Layout { column_width, columns, rows }),
                line@ + row_text(all, widths@, l, row as int, col as int) == goal,
            decreases columns - col,
        {
            let ghost before = line@;
            let ghost rest = row_text(all, widths@, l, row as int, col + 1);
            let product = col.checked_mul(rows);
            let index: Option<usize> = match product {
                Some(p) => p.checked_add(row),
                None => None,
            };
            let here: Option<usize> = match index {
                Some(i) => if i < list.len() {
                    Some(i)
                } else {
                    None
                },
                None => None,
            };
            proof {
                let i = (col as int) * (l.rows as int) + (row as int);
                assert(l.rows == rows);
                assert(all.len() == list@.len());
                assert((col as int) * (l.rows as int) == col * rows) by (nonlinear_arith)
                    requires
                        l.rows == rows,
                ;
                assert(i == col * rows + row);
                assert(list@.len() <= usize::MAX);
                if product is None {
                    assert(col * rows > usize::MAX);
                    assert(i >= all.len());
                } else if index is None {
                    assert(product->0 + row > usize::MAX);
                    assert(i >= all.len());
                } else {
                    assert(index->0 == i);
                }
                assert(cell(l, all.len() as int, row as int, col as int) == if i < all.len() {
                    Some(i)
                } else {
                    None
                });
                assert(here matches Some(x) ==> x == i);
                assert(here is None ==> i >= all.len());
            }
            match here {
                Some(i) => {
                    let text = to_chars(list[i].as_str());
                    let mut k: usize = 0;
                    while k < text.len()
                        invariant
                            k <= text.len(),
                            line@ == before + text@.take(k as int),
                        decreases text.len() - k,
                    {
                        line.push(text[k]);
                        k += 1;
                        assert(line@ =~= before + text@.take(k as int));
                    }
                    assert(text@.take(k as int) =~= text@);
                    let spaces: usize = if column_width > widths[i] {
                        column_width - widths[i]
                    } else {
                        0
                    };
                    let mut s: usize = 0;
                    while s < spaces
                        invariant
                            s <= spaces,
                            line@ == before + text@ + Seq::new(s as nat, |k: int| ' '),
                        decreases spaces - s,
                    {
                        line.push(' ');
                        s += 1;
                        assert(line@ =~= before + text@ + Seq::new(s as nat, |k: int| ' '));
                    }
                    assert(line@ + rest =~= before + (all[i as int] + Seq::new(
                        spaces as nat,
                        |k: int| ' ',
                    ) + rest));
                },
                None => {
                    assert(cell(l, all.len() as int, row as int, col as int) is None);
                    assert(line@ + rest =~= before + (Seq::<char>::empty() + rest));
                },
            }
            col += 1;
        }
        assert(line@ + Seq::<char>::empty() =~= line@);
        lines.push(from_chars(&line));
        row += 1;
    }
    assert(views(lines@) =~= list_lines(all, widths@, cols));
    lines
}

/// The lines that show a list of candidates on a terminal of `cols` columns.
pub fn show_list(list: &Vec<String>, cols: usize) -> (lines: Vec<String>)
    ensures
        exists|widths: Seq<usize>|
            widths.len() == list@.len() && (forall|i: int|
                0 <= i < widths.len() ==> #[trigger] widths[i] == display_width(list@[i]@))
                && views(lines@) == list_lines(views(list@), widths, cols),
{
    let mut widths: Vec<usize> = Vec::new();
    let mut i: usize = 0;
    while i < list.len()
        invariant
            i <= list.len(),
            widths@.len() == i,
            forall|k: int| 0 <= k < i ==> #[trigger] widths@[k] == display_width(list@[k]@),
        decreases list.len() - i,
    {
        widths.push(width_of(list[i].as_str()));
        i += 1;
    }
    lay_out(list, &widths, cols)
}

/// The words of a line: the pieces between its spaces, from left to right.
/// A line without a space is one word.
pub open spec fn words_of(s: Seq<char>) -> Seq<Seq<char>>
    decreases s.len(),
{
    if s.len() == 0 {
        seq![Seq::empty()]
    } else if s.last() == ' ' {
        words_of(s.drop_last()).push(Seq::empty())
    } else {
        let front = words_of(s.drop_last());
        front.update(front.len() - 1, front.last().push(s.last()))
    }
}

proof fn lemma_words_nonempty(s: Seq<char>)
    ensures
        words_of(s).len() > 0,
    decreases s.len(),
{
    if s.len() > 0 {
        lemma_words_nonempty(s.drop_last());
    }
}

/// Cuts `v[from..]` into its words.
pub fn split_words(v: &Vec<char>, from: usize) -> (words: Vec<Vec<char>>)
    requires
        from <= v.len(),
    ensures
        words@.map_values(|w: Vec<char>| w@) == words_of(v@.skip(from as int)),
        words@.len() > 0,
{
    let ghost s = v@.skip(from as int);
    let mut words: Vec<Vec<char>> = Vec::new();
    let mut cur: Vec<char> = Vec::new();
    let mut i: usize = from;
    assert(s.take(0) =~= Seq::<char>::empty());
    assert(words@.map_values(|w: Vec<char>| w@).push(cur@) =~= seq![Seq::<char>::empty()]);
    while i < v.len()
        invariant
            from <= i <= v.len(),
            s == v@.skip(from as int),
            words@.map_values(|w: Vec<char>| w@).push(cur@) == words_of(s.take(i - from)),
        decreases v.len() - i,
    {
        let ghost before = words@.map_values(|w: Vec<char>| w@);
        let ghost cur0 = cur@;
        let ghost upto = s.take(i - from + 1);
        assert(upto.drop_last() =~= s.take(i - from));
        assert(upto.last() == v@[i as int]);
        if v[i] == ' ' {
            let mut done: Vec<char> = Vec::new();
            std::mem::swap(&mut done, &mut cur);
            words.push(done);
            assert(words@.map_values(|w: Vec<char>| w@) =~= before.push(cur0));
        } else {
            cur.push(v[i]);
            assert(before.push(cur@) =~= before.push(cur0).update(
                before.len() as int,
                cur0.push(v@[i as int]),
            ));
        }
        i += 1;
    }
    assert(s.take(i - from) =~= s);
    let ghost before = words@.map_values(|w: Vec<char>| w@);
    words.push(cur);
    assert(words@.map_values(|w: Vec<char>| w@) =~= before.push(cur@));
    words
}

/// What a completion looks for.
#[derive(Debug)]
pub struct CompletionTarget {
    /// The word before the cursor, as the user wrote it.
    pub last: String,
    /// The word with a `~/` at its beginning replaced by the home directory.
    pub search: String,
    /// Whether the word stands where a command is expected: only assignments
    /// stand before it.
    pub command: bool,
}

/// Whether only assignments stand before the last of the words: every word
/// before it holds a `=`.
pub open spec fn in_command_position(words: Seq<Seq<char>>) -> bool {
    forall|i: int| 0 <= i < words.len() - 1 ==> (#[trigger] words[i]).contains('=')
}

impl Terminal {
    /// The line after the first `from` characters.
    pub fn get_string(&self, from: usize) -> (s: String)
        requires
            from <= self.chars@.len(),
        ensures
            s@ == self.chars@.skip(from as int),
    {
        let s = substring(&self.chars, from, self.chars.len());
        assert(s@ =~= self.chars@.skip(from as int));
        s
    }

    /// Works out what is to be completed: the last word of the line behind
    /// the prompt. `None` where that word is empty. Where the word begins with
    /// `~/`, this and what it stands for are kept for later; else both are
    /// forgotten.
    pub fn completion_target(&mut self, core: &ShellCore) -> (r: Option<CompletionTarget>)
        requires
            old(self).prompt@.len() <= old(self).chars@.len(),
        ensures
            final(self).prompt == old(self).prompt,
            final(self).chars == old(self).chars,
            final(self).head == old(self).head,
            ({
                let words = words_of(old(self).chars@.skip(old(self).prompt@.len() as int));
                let last = words.last();
                let tilde = "~/"@.is_prefix_of(last);
                &&& final(self).tilde_prefix@ == (if last.len() > 0 && tilde {
                    "~/"@
                } else if last.len() > 0 {
                    Seq::<char>::empty()
                } else {
                    old(self).tilde_prefix@
                })
                &&& final(self).tilde_path@ == (if last.len() > 0 && tilde {
                    core@.value_of("HOME"@) + "/"@
                } else if last.len() > 0 {
                    Seq::<char>::empty()
                } else {
                    old(self).tilde_path@
                })
                &&& match r {
                    None => last.len() == 0,
                    Some(t) => {
                        &&& last.len() > 0
                        &&& t.last@ == last
                        &&& t.search@ == (if tilde {
                            core@.value_of("HOME"@) + "/"@ + last.skip(2)
                        } else {
                            last
                        })
                        &&& t.command == in_command_position(words)
                    },
                }
            }),
    {
        let from = self.prompt.as_str().unicode_len();
        let words = split_words(&self.chars, from);
        let ghost all = words@.map_values(|w: Vec<char>| w@);
        let last_chars = &words[words.len() - 1];
        assert(all.last() == last_chars@);
        if last_chars.len() == 0 {
            return None;
        }
        let last = from_chars(last_chars);
        let tilde = to_chars("~/");
        proof {
            reveal_strlit("~/");
            assert(last_chars@.subrange(0, last_chars@.len() as int) =~= last_chars@);
        }
        let search: String;
        if starts_at(last_chars, 0, last_chars.len(), &tilde) {
            self.tilde_prefix = String::from_str("~/");
            let mut path = core.get_var("HOME");
            path.append("/");
            search = replace_prefix(last.as_str(), "~/", path.as_str());
            self.tilde_path = path;
        } else {
            self.tilde_prefix = String::new();
            self.tilde_path = String::new();
            search = last.clone();
        }
        let mut command = true;
        let mut i: usize = 0;
        while i < words.len() - 1
            invariant
                i <= words.len() - 1,
                words@.len() > 0,
                all == words@.map_values(|w: Vec<char>| w@),
                command == (forall|k: int| 0 <= k < i ==> (#[trigger] all[k]).contains('=')),
            decreases words.len() - 1 - i,
        {
            let found = crate::text::find_char(&words[i], '=').is_some();
            assert(all[i as int] == words@[i as int]@);
            if !found {
                command = false;
            }
            i += 1;
        }
        Some(CompletionTarget { last, search, command })
    }

    /// Puts `path` in the place of the last characters of the line, as many as
    /// `last` has, and moves the cursor to the end. Where `last` begins with
    /// `./`, so does what is put in; and the home directory at its beginning
    /// gives way to the `~/` that the user wrote.
    pub fn replace_input(&mut self, path: &String, last: &str)
        requires
            last@.len() <= old(self).chars@.len(),
        ensures
            final(self).prompt == old(self).prompt,
            final(self).tilde_prefix == old(self).tilde_prefix,
            final(self).tilde_path == old(self).tilde_path,
            final(self).chars@ == old(self).chars@.take(old(self).chars@.len() - last@.len())
                + with_prefix_replaced(
                if "./"@.is_prefix_of(last@) {
                    "./"@ + path@
                } else {
                    path@
                },
                old(self).tilde_path@,
                old(self).tilde_prefix@,
            ),
            final(self).head == final(self).chars@.len(),
    {
        let last_char_num = last.unicode_len();
        let len = self.chars.len();
        let l = to_chars(last);
        let dot = to_chars("./");
        proof {
            assert(l@.subrange(0, l@.len() as int) =~= l@);
        }
        let mut path_chars = String::new();
        if starts_at(&l, 0, l.len(), &dot) {
            path_chars.append("./");
        }
        path_chars.append(path.as_str());
        proof {
            assert(Seq::<char>::empty() + path@ =~= path@);
            assert(Seq::<char>::empty() + "./"@ + path@ =~= "./"@ + path@);
        }
        let replaced = replace_prefix(
            path_chars.as_str(),
            self.tilde_path.as_str(),
            self.tilde_prefix.as_str(),
        );
        let new_chars = to_chars(replaced.as_str());
        self.chars.truncate(len - last_char_num);
        let ghost kept = self.chars@;
        let mut i: usize = 0;
        while i < new_chars.len()
            invariant
                i <= new_chars.len(),
                self.chars@ == kept + new_chars@.take(i as int),
                self.prompt == old(self).prompt,
                self.tilde_prefix == old(self).tilde_prefix,
                self.tilde_path == old(self).tilde_path,
            decreases new_chars.len() - i,
        {
            self.chars.push(new_chars[i]);
            i += 1;
            assert(self.chars@ =~= kept + new_chars@.take(i as int));
        }
        assert(new_chars@.take(i as int) =~= new_chars@);
        self.head = self.chars.len();
    }

    /// Completes the word `last` before the cursor from the candidates that
    /// were found for it. A single candidate takes the place of the word,
    /// with a slash behind it where it is a directory and a space where it is
    /// not; of several candidates their common beginning does. The result is
    /// the list to show where the key was pressed twice: the candidates, with
    /// the home directory at their beginning written as the user wrote it.
    pub fn completion(
        &mut self,
        list: &Vec<String>,
        single_is_dir: bool,
        last: &str,
        double_tab: bool,
    ) -> (shown: Vec<String>)
        requires
            last@.len() <= old(self).chars@.len(),
        ensures
            final(self).prompt == old(self).prompt,
            final(self).tilde_prefix == old(self).tilde_prefix,
            final(self).tilde_path == old(self).tilde_path,
            final(self).head == final(self).chars@.len(),
            shown@.len() == if double_tab {
                list@.len()
            } else {
                0
            },
            forall|i: int|
                0 <= i < shown@.len() ==> (#[trigger] shown@[i])@ == with_prefix_replaced(
                    list@[i]@,
                    old(self).tilde_path@,
                    old(self).tilde_prefix@,
                ),
            final(self).chars@ == old(self).chars@.take(old(self).chars@.len() - last@.len())
                + with_prefix_replaced(
                if "./"@.is_prefix_of(last@) {
                    "./"@ + completed(views(list@), single_is_dir)
                } else {
                    completed(views(list@), single_is_dir)
                },
                old(self).tilde_path@,
                old(self).tilde_prefix@,
            ),
    {
        let mut shown: Vec<String> = Vec::new();
        if double_tab {
            let mut i: usize = 0;
            while i < list.len()
                invariant
                    i <= list.len(),
                    shown@.len() == i,
                    self.tilde_path == old(self).tilde_path,
                    self.tilde_prefix == old(self).tilde_prefix,
                    forall|k: int|
                        0 <= k < i ==> (#[trigger] shown@[k])@ == with_prefix_replaced(
                            list@[k]@,
                            old(self).tilde_path@,
                            old(self).tilde_prefix@,
                        ),
                decreases list.len() - i,
            {
                shown.push(
                    replace_prefix(
                        list[i].as_str(),
                        self.tilde_path.as_str(),
                        self.tilde_prefix.as_str(),
                    ),
                );
                i += 1;
            }
        }
        if list.len() == 1 {
            let mut path = list[0].clone();
            if single_is_dir {
                path.push('/');
            } else {
                path.push(' ');
            }
            assert(views(list@)[0] == list@[0]@);
            self.replace_input(&path, last);
        } else {
            let common = common_string(list);
            self.replace_input(&common, last);
        }
        shown
    }
}

/// What takes the place of the word that is completed: the single candidate
/// with a slash or a space behind it, or the common beginning of several
/// candidates; nothing where there is no candidate.
pub open spec fn completed(list: Seq<Seq<char>>, single_is_dir: bool) -> Seq<char> {
    if list.len() == 1 {
        list[0].push(
            if single_is_dir {
                '/'
            } else {
                ' '
            },
        )
    } else if list.len() == 0 {
        Seq::empty()
    } else {
        list[0].take(common_all(list, list.len() as int) as int)
    }
}

} // verus!
