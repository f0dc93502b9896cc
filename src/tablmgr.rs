//! Tables held as ordered rows, the text form a table file takes, and the
//! row operations of the store: add, edit, delete and print by row id.
use vstd::prelude::*;
use crate::text::{
    lemma_trimmed_within, replace_char, same_text, swapped, trim_text, trimmed,
};

verus! {

/// A table: its rows in file order, each without its line terminator.
pub struct Table {
    pub rows: Vec<String>,
}

/// Why a row operation did nothing.
#[derive(Clone, Copy, Debug, PartialEq, Eq, Structural)]
pub enum TableError {
    /// The row id is not below the number of rows.
    OutOfRange,
}

impl View for Table {
    type V = Seq<Seq<char>>;

    open spec fn view(&self) -> Seq<Seq<char>> {
        self.rows@.map_values(|r: String| r@)
    }
}

/// The text of a table file holding `rows`: each row followed by a newline.
pub open spec fn text_of(rows: Seq<Seq<char>>) -> Seq<char>
    decreases rows.len(),
{
    if rows.len() == 0 {
        Seq::empty()
    } else {
        text_of(rows.drop_last()) + rows.last() + seq!['\n']
    }
}

/// `s` with a final newline added where it has none and is not empty.
pub open spec fn framed(s: Seq<char>) -> Seq<char> {
    if s.len() == 0 || s.last() == '\n' {
        s
    } else {
        s.push('\n')
    }
}

pub open spec fn single_lines(rows: Seq<Seq<char>>) -> bool {
    forall|i: int| 0 <= i < rows.len() ==> !(#[trigger] rows[i]).contains('\n')
}

/// No two rows are the same text.
pub open spec fn distinct_rows(rows: Seq<Seq<char>>) -> bool {
    forall|i: int, j: int| 0 <= i < j < rows.len() ==> #[trigger] rows[i] != #[trigger] rows[j]
}

/// How a record is stored: trimmed, with spaces turned into commas.
pub open spec fn normalized(data: Seq<char>) -> Seq<char> {
    swapped(trimmed(data), ' ', ',')
}

/// How a stored record is shown: commas turned back into spaces.
pub open spec fn shown(row: Seq<char>) -> Seq<char> {
    swapped(row, ',', ' ')
}

/// The rows after adding `data`: unchanged when its stored form is present.
pub open spec fn with_added(rows: Seq<Seq<char>>, data: Seq<char>) -> Seq<Seq<char>> {
    if rows.contains(normalized(data)) {
        rows
    } else {
        rows.push(normalized(data))
    }
}

/// The rows after editing row `id` to `data`: unchanged when `id` is out of
/// range or the stored form of `data` is present.
pub open spec fn with_edited(rows: Seq<Seq<char>>, id: int, data: Seq<char>) -> Seq<Seq<char>> {
    if id < 0 || id >= rows.len() || rows.contains(normalized(data)) {
        rows
    } else {
        rows.update(id, normalized(data))
    }
}

proof fn lemma_rows_push(v: Seq<String>, s: String)
    ensures
        v.push(s).map_values(|r: String| r@) == v.map_values(|r: String| r@).push(s@),
{
    assert(v.push(s).map_values(|r: String| r@) =~= v.map_values(|r: String| r@).push(s@));
}

impl Table {
    pub fn new() -> (t: Table)
        ensures
            t@ == Seq::<Seq<char>>::empty(),
    {
        let t = Table { rows: Vec::new() };
        assert(t@ =~= Seq::<Seq<char>>::empty());
        t
    }

    /// The number of rows.
    pub fn len(&self) -> (n: usize)
        ensures
            n == self@.len(),
    {
        self.rows.len()
    }

    /// Reads the text of a table file: one row per line, a last line
    /// without a newline included.
    pub fn from_text(content: &str) -> (t: Table)
        ensures
            single_lines(t@),
            text_of(t@) == framed(content@),
    {
        let n = content.unicode_len();
        let mut rows: Vec<String> = Vec::new();
        let mut start: usize = 0;
        let mut i: usize = 0;
        while i < n
            invariant
                n == content@.len(),
                start <= i <= n,
                single_lines(rows@.map_values(|r: String| r@)),
                text_of(rows@.map_values(|r: String| r@)) == content@.subrange(0, start as int),
                !content@.subrange(start as int, i as int).contains('\n'),
            decreases n - i,
        {
            let ghost old_rows = rows@;
            if content.get_char(i) == '\n' {
                let line = String::from_str(content.substring_char(start, i));
                rows.push(line);
                proof {
                    lemma_rows_push(old_rows, line);
                    let v = rows@.map_values(|r: String| r@);
                    assert(v.drop_last() =~= old_rows.map_values(|r: String| r@));
                    assert(content@.subrange(0, i + 1) =~= content@.subrange(0, start as int)
                        + content@.subrange(start as int, i as int) + seq!['\n']);
                }
                start = i + 1;
                assert(content@.subrange(start as int, start as int) =~= Seq::<char>::empty());
            } else {
                proof {
                    let a = content@.subrange(start as int, i as int);
                    let b = content@.subrange(start as int, i + 1);
                    assert(b =~= a.push(content@[i as int]));
                    if b.contains('\n') {
                        let k = choose|k: int| 0 <= k < b.len() && b[k] == '\n';
                        if k < a.len() {
                            assert(a[k] == '\n');
                        }
                    }
                }
            }
            i = i + 1;
        }
        if start < n {
            let ghost old_rows = rows@;
            let line = String::from_str(content.substring_char(start, n));
            rows.push(line);
            proof {
                lemma_rows_push(old_rows, line);
                let v = rows@.map_values(|r: String| r@);
                assert(v.drop_last() =~= old_rows.map_values(|r: String| r@));
                assert(content@ =~= content@.subrange(0, start as int) + content@.subrange(
                    start as int,
                    n as int,
                ));
                assert(content@.last() == content@.subrange(start as int, n as int).last());
                assert(content@.last() != '\n');
                assert(content@.push('\n') =~= text_of(v));
            }
        } else {
            assert(content@.subrange(0, n as int) =~= content@);
        }
        Table { rows }
    }

    /// The text of the table file: each row followed by a newline.
    pub fn to_text(&self) -> (r: String)
        ensures
            r@ == text_of(self@),
    {
        let mut r = String::new();
        let mut i: usize = 0;
        while i < self.rows.len()
            invariant
                i <= self.rows@.len(),
                r@ == text_of(self@.subrange(0, i as int)),
            decreases self.rows@.len() - i,
        {
            proof {
                let p = self@.subrange(0, i + 1);
                assert(p.drop_last() =~= self@.subrange(0, i as int));
            }
            r.append(self.rows[i].as_str());
            r.append("\n");
            proof {
                reveal_strlit("\n");
            }
            i = i + 1;
        }
        assert(self@.subrange(0, i as int) =~= self@);
        r
    }
}

/// Whether no row of `rows` is the text `data`.
pub fn uniq_check(rows: &Vec<String>, data: &str) -> (r: bool)
    ensures
        r == !rows@.map_values(|x: String| x@).contains(data@),
{
    let mut i: usize = 0;
    while i < rows.len()
        invariant
            i <= rows@.len(),
            forall|k: int| 0 <= k < i ==> rows@[k]@ != data@,
        decreases rows@.len() - i,
    {
        if same_text(rows[i].as_str(), data) {
            assert(rows@.map_values(|x: String| x@)[i as int] == data@);
            return false;
        }
        i = i + 1;
    }
    true
}

/// The stored form of a record: trimmed, with spaces turned into commas.
pub fn normalize(data: &str) -> (r: String)
    ensures
        r@ == normalized(data@),
{
    let t = trim_text(data);
    proof {
        reveal_strlit(",");
    }
    replace_char(t.as_str(), ' ', ",")
}

/// Adds a record unless its stored form is already a row. Returns the
/// number of rows added.
pub fn add(table: &mut Table, data: &str) -> (r: usize)
    ensures
        final(table)@ == with_added(old(table)@, data@),
        r == (if old(table)@.contains(normalized(data@)) { 0usize } else { 1usize }),
{
    let record = normalize(data);
    if !uniq_check(&table.rows, record.as_str()) {
        return 0;
    }
    let ghost before = table.rows@;
    table.rows.push(record);
    proof {
        lemma_rows_push(before, record);
    }
    1
}

/// Replaces row `id` with a record unless its stored form is already a
/// row. Returns the number of rows changed.
pub fn edit(table: &mut Table, id: usize, new_data: &str) -> (r: Result<usize, TableError>)
    ensures
        final(table)@ == with_edited(old(table)@, id as int, new_data@),
        id >= old(table)@.len() ==> r == Err::<usize, TableError>(TableError::OutOfRange),
        id < old(table)@.len() ==> r == Ok::<usize, TableError>(
            if old(table)@.contains(normalized(new_data@)) { 0usize } else { 1usize },
        ),
{
    if id >= table.rows.len() {
        return Err(TableError::OutOfRange);
    }
    let record = normalize(new_data);
    if !uniq_check(&table.rows, record.as_str()) {
        return Ok(0);
    }
    let ghost before = table.rows@;
    table.rows.set(id, record);
    proof {
        assert(table.rows@.map_values(|x: String| x@) =~= before.map_values(|x: String| x@).update(
            id as int,
            record@,
        ));
    }
    Ok(1)
}

/// Removes row `id` and returns its text with the newline that ended it.
pub fn del(table: &mut Table, id: usize) -> (r: Result<String, TableError>)
    ensures
        id >= old(table)@.len() ==> r == Err::<String, TableError>(TableError::OutOfRange)
            && final(table)@ == old(table)@,
        id < old(table)@.len() ==> r is Ok && r->Ok_0@ == old(table)@[id as int].push('\n')
            && final(table)@ == old(table)@.remove(id as int),
{
    if id >= table.rows.len() {
        return Err(TableError::OutOfRange);
    }
    let ghost before = table.rows@;
    let mut line = table.rows.remove(id);
    proof {
        assert(table.rows@.map_values(|x: String| x@) =~= before.map_values(|x: String| x@).remove(
            id as int,
        ));
        reveal_strlit("\n");
    }
    line.append("\n");
    Ok(line)
}

/// Row `id` as shown to the user: commas turned into spaces.
pub fn print(table: &Table, id: usize) -> (r: Result<String, TableError>)
    ensures
        id >= table@.len() ==> r == Err::<String, TableError>(TableError::OutOfRange),
        id < table@.len() ==> r is Ok && r->Ok_0@ == shown(table@[id as int]),
{
    if id >= table.rows.len() {
        return Err(TableError::OutOfRange);
    }
    proof {
        reveal_strlit(" ");
    }
    Ok(replace_char(table.rows[id].as_str(), ',', " "))
}

/// Adding or editing never makes two rows equal, and a record whose stored
/// form is already a row changes nothing, whether added or edited in.
pub proof fn uniqueness_kept(rows: Seq<Seq<char>>, id: int, data: Seq<char>)
    ensures
        distinct_rows(rows) ==> distinct_rows(with_added(rows, data)),
        distinct_rows(rows) ==> distinct_rows(with_edited(rows, id, data)),
        rows.contains(normalized(data)) ==> with_added(rows, data) == rows,
        rows.contains(normalized(data)) ==> with_edited(rows, id, data) == rows,
{
    let n = normalized(data);
    if distinct_rows(rows) && !rows.contains(n) {
        let a = rows.push(n);
        assert forall|i: int, j: int| 0 <= i < j < a.len() implies #[trigger] a[i] != #[trigger] a[j] by {
            if j == rows.len() {
                assert(a[i] == rows[i]);
            }
        }
        if 0 <= id < rows.len() {
            let e = rows.update(id, n);
            assert forall|i: int, j: int| 0 <= i < j < e.len() implies #[trigger] e[i] != #[trigger] e[j] by {
                if i == id {
                    assert(e[j] == rows[j]);
                } else if j == id {
                    assert(e[i] == rows[i]);
                }
            }
        }
    }
}

/// A record without commas, once added, is shown back as the record itself
/// without surrounding whitespace: at the end of the table when it was new,
/// at the row already holding it otherwise.
pub proof fn added_row_shown(rows: Seq<Seq<char>>, data: Seq<char>)
    requires
        !data.contains(','),
    ensures
        ({
            let t = with_added(rows, data);
            let k = if rows.contains(normalized(data)) {
                rows.index_of(normalized(data))
            } else {
                rows.len() as int
            };
            0 <= k < t.len() && shown(t[k]) == trimmed(data)
        }),
{
    let n = normalized(data);
    let tr = trimmed(data);
    assert forall|c: char| tr.contains(c) implies data.contains(c) by {
        lemma_trimmed_within(data, c);
    }
    assert(!tr.contains(','));
    assert forall|i: int| 0 <= i < tr.len() implies tr[i] != ',' by {
        if tr[i] == ',' {
            assert(tr.contains(','));
        }
    }
    assert(shown(n) =~= tr);
    if rows.contains(n) {
        rows.index_of_first_ensures(n);
    }
}

/// Reading back the text written for rows of single lines gives the same
/// rows.
pub proof fn text_round_trip(rows: Seq<Seq<char>>, read: Seq<Seq<char>>)
    requires
        single_lines(rows),
        single_lines(read),
        text_of(read) == framed(text_of(rows)),
    ensures
        read == rows,
    decreases rows.len() + read.len(),
{
    lemma_text_framed(rows);
    if rows.len() == 0 {
        if read.len() > 0 {
            assert(text_of(read).len() > 0);
        }
        assert(read =~= rows);
    } else if read.len() == 0 {
        assert(text_of(rows).len() > 0);
    } else {
        let (a, b) = (rows.last(), read.last());
        let (ta, tb) = (text_of(rows.drop_last()), text_of(read.drop_last()));
        let t = text_of(rows);
        assert(t == ta + a + seq!['\n']);
        assert(text_of(read) == tb + b + seq!['\n']);
        lemma_last_line(ta, a, tb, b);
        assert(single_lines(rows.drop_last()));
        assert(single_lines(read.drop_last()));
        lemma_text_framed(rows.drop_last());
        text_round_trip(rows.drop_last(), read.drop_last());
        assert(read =~= read.drop_last().push(b));
        assert(rows =~= rows.drop_last().push(a));
    }
}

proof fn lemma_text_framed(rows: Seq<Seq<char>>)
    ensures
        framed(text_of(rows)) == text_of(rows),
{
    if rows.len() > 0 {
        let t = text_of(rows);
        assert(t == text_of(rows.drop_last()) + rows.last() + seq!['\n']);
        assert(t.last() == '\n');
    }
}

/// Two texts that both end in a newline-free last line followed by a
/// newline, and are equal, have the same last line and the same prefix,
/// provided that each prefix is empty or ends in a newline.
proof fn lemma_last_line(ta: Seq<char>, a: Seq<char>, tb: Seq<char>, b: Seq<char>)
    requires
        !a.contains('\n'),
        !b.contains('\n'),
        ta.len() == 0 || ta.last() == '\n',
        tb.len() == 0 || tb.last() == '\n',
        ta + a + seq!['\n'] == tb + b + seq!['\n'],
    ensures
        a == b,
        ta == tb,
{
    let x = ta + a + seq!['\n'];
    let y = tb + b + seq!['\n'];
    assert(x.len() == ta.len() + a.len() + 1);
    assert(y.len() == tb.len() + b.len() + 1);
    if a.len() < b.len() {
        assert(ta.len() > 0);
        assert(x[ta.len() - 1] == ta[ta.len() - 1]);
        assert(x[ta.len() - 1] == '\n');
        assert(y[ta.len() - 1] == b[ta.len() - 1 - tb.len()]);
        assert(b.contains('\n'));
    } else if b.len() < a.len() {
        assert(tb.len() > 0);
        assert(y[tb.len() - 1] == tb[tb.len() - 1]);
        assert(y[tb.len() - 1] == '\n');
        assert(x[tb.len() - 1] == a[tb.len() - 1 - ta.len()]);
        assert(a.contains('\n'));
    } else {
        assert(ta.len() == tb.len());
        assert(ta =~= x.subrange(0, ta.len() as int));
        assert(tb =~= y.subrange(0, tb.len() as int));
        assert(a =~= x.subrange(ta.len() as int, (ta.len() + a.len()) as int));
        assert(b =~= y.subrange(tb.len() as int, (tb.len() + b.len()) as int));
    }
}

} // verus!
