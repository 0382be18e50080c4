//! Recorded runs.

use crate::decimal::{double_literal, parse_double};
use crate::error::EvalError;
use crate::float::binary64::F64;
use crate::map::TextMap;
use crate::text::{chars_of, same, trim, trimmed};
use crate::value::{M1Scalar, Value};
use vstd::prelude::*;

verus! {

/// A channel's values over time.
#[derive(Debug)]
pub struct InputSeries {
    /// The channel.
    pub channel: String,
    /// Where its values come from.
    pub kind: InputKind,
}

/// Where the values of a channel come from.
#[derive(Debug)]
pub enum InputKind {
    /// One value.
    Const(Value),
    /// Values from their instants on.
    Series(Vec<(F64, Value)>),
}

/// The value that holds at an instant: that of the last point not after it, and
/// of the first point before any. No points give none.
pub open spec fn held(points: Seq<(F64, Value)>, t: F64) -> Option<Value>
    decreases points.len(),
{
    if points.len() == 0 {
        None
    } else if points.len() == 1 || points.last().0.at_most(t) {
        Some(points.last().1)
    } else {
        held(points.drop_last(), t)
    }
}

impl InputSeries {
    /// The value at an instant, held between points.
    pub open spec fn value_at(self, t: F64) -> Option<Value> {
        match self.kind {
            InputKind::Const(v) => Some(v),
            InputKind::Series(points) => held(points@, t),
        }
    }

    /// The value at an instant, held between points.
    pub fn sample(&self, t: F64) -> (r: Option<&Value>)
        ensures
            match self.value_at(t) {
                Some(v) => r matches Some(x) && *x == v,
                None => r is None,
            },
    {
        match &self.kind {
            InputKind::Const(v) => Some(v),
            InputKind::Series(points) => {
                let mut n: usize = points.len();
                let ghost all = points@;
                assert(all.take(n as int) =~= all);
                while n > 1
                    invariant
                        n <= all.len(),
                        all == points@,
                        self.value_at(t) == held(all, t),
                        n == 0 ==> all.len() == 0,
                        held(all, t) == held(all.take(n as int), t),
                    decreases n,
                {
                    assert(all.take(n as int).last() == all[n - 1]);
                    assert(all.take(n as int).drop_last() =~= all.take(n - 1));
                    if points[n - 1].0.at_most(t) {
                        return Some(&points[n - 1].1);
                    }
                    n = n - 1;
                }
                if n == 0 {
                    None
                } else {
                    assert(all.take(1).last() == all[0]);
                    Some(&points[0].1)
                }
            },
        }
    }
}

/// Where a log comes from.
#[derive(Debug)]
pub struct LogMeta {
    /// The file.
    pub source: String,
    /// The units of channels.
    pub units: TextMap<String>,
}

/// A recorded run.
#[derive(Debug)]
pub struct Log {
    /// The channels.
    pub channels: Vec<InputSeries>,
    /// Where it comes from.
    pub meta: LogMeta,
}

/// The position of the first series of a channel, or the count.
pub open spec fn series_index(channels: Seq<InputSeries>, name: Seq<char>) -> nat
    decreases channels.len(),
{
    if channels.len() == 0 {
        0
    } else if channels[0].channel@ == name {
        0
    } else {
        1 + series_index(channels.drop_first(), name)
    }
}

/// What is found is a series of the channel.
pub proof fn lemma_series_index(channels: Seq<InputSeries>, name: Seq<char>)
    ensures
        series_index(channels, name) <= channels.len(),
        series_index(channels, name) < channels.len() ==> channels[series_index(
            channels,
            name,
        ) as int].channel@ == name,
    decreases channels.len(),
{
    if channels.len() > 0 && channels[0].channel@ != name {
        lemma_series_index(channels.drop_first(), name);
    }
}

impl Log {
    /// The position of the series of a channel.
    pub open spec fn series_named(self, name: Seq<char>) -> Option<nat> {
        let i = series_index(self.channels@, name);
        if i < self.channels@.len() {
            Some(i)
        } else {
            None
        }
    }

    /// The position of the series of a channel.
    pub fn series_for(&self, name: &str) -> (r: Option<usize>)
        ensures
            match self.series_named(name@) {
                Some(i) => r matches Some(k) && k == i && k < self.channels.len()
                    && self.channels@[k as int].channel@ == name@,
                None => r is None,
            },
    {
        let mut i: usize = 0;
        let ghost all = self.channels@;
        assert(all.skip(0) =~= all);
        proof {
            lemma_series_index(all, name@);
        }
        while i < self.channels.len()
            invariant
                i <= all.len(),
                all == self.channels@,
                series_index(all, name@) == i + series_index(all.skip(i as int), name@),
            decreases all.len() - i,
        {
            assert(all.skip(i as int)[0] == all[i as int]);
            assert(all.skip(i as int).drop_first() =~= all.skip(i + 1));
            if same(self.channels[i].channel.as_str(), name) {
                return Some(i);
            }
            i = i + 1;
        }
        None
    }
}

/// A text split at a character.
pub open spec fn split_at(s: Seq<char>, c: char) -> Seq<Seq<char>>
    decreases s.len(),
{
    if s.len() == 0 {
        seq![Seq::empty()]
    } else {
        let rest = split_at(s.drop_last(), c);
        if s.last() == c {
            rest.push(Seq::empty())
        } else {
            rest.drop_last().push(rest.last().push(s.last()))
        }
    }
}

/// The contents of texts.
pub open spec fn contents(v: Seq<String>) -> Seq<Seq<char>> {
    v.map_values(|s: String| s@)
}

/// Splits a text at a character.
fn split(s: &str, c: char) -> (r: Vec<String>)
    ensures
        contents(r@) == split_at(s@, c),
{
    let v = chars_of(s);
    let mut done: Vec<String> = Vec::new();
    let mut current: String = String::new();
    let mut i: usize = 0;
    assert(contents(done@).push(current@) =~= split_at(s@.take(0), c));
    while i < v.len()
        invariant
            i <= v.len(),
            v@ == s@,
            contents(done@).push(current@) == split_at(s@.take(i as int), c),
        decreases v.len() - i,
    {
        let ghost held = contents(done@).push(current@);
        let ghost head = contents(done@);
        proof {
            assert(s@.take(i + 1).drop_last() =~= s@.take(i as int));
            assert(s@.take(i + 1).last() == s@[i as int]);
            assert(held.drop_last() =~= head);
            assert(held.last() == current@);
        }
        if v[i] == c {
            done.push(current);
            current = String::new();
            assert(contents(done@) =~= held);
            assert(current@ =~= Seq::empty());
        } else {
            current.push(v[i]);
        }
        i = i + 1;
    }
    assert(s@.take(i as int) =~= s@);
    done.push(current);
    assert(contents(done@) =~= split_at(s@, c));
    done
}

/// The texts that are not blank.
pub open spec fn not_blank(lines: Seq<Seq<char>>) -> Seq<Seq<char>>
    decreases lines.len(),
{
    if lines.len() == 0 {
        Seq::empty()
    } else if trimmed(lines.last()).len() == 0 {
        not_blank(lines.drop_last())
    } else {
        not_blank(lines.drop_last()).push(lines.last())
    }
}

/// The cells of a line, without the blanks around them.
pub open spec fn cells(line: Seq<char>) -> Seq<Seq<char>> {
    split_at(line, ',').map_values(|s: Seq<char>| trimmed(s))
}

/// The cells of the lines that are not blank.
pub open spec fn csv_table(text: Seq<char>) -> Seq<Seq<Seq<char>>> {
    not_blank(split_at(text, '\n')).map_values(|line: Seq<char>| cells(line))
}

/// The contents of rows.
pub open spec fn rows_view(v: Seq<Vec<String>>) -> Seq<Seq<Seq<char>>> {
    v.map_values(|row: Vec<String>| contents(row@))
}

fn read_cells(line: &str) -> (r: Vec<String>)
    ensures
        contents(r@) == cells(line@),
{
    let parts = split(line, ',');
    let mut r: Vec<String> = Vec::new();
    let mut i: usize = 0;
    while i < parts.len()
        invariant
            i <= parts.len(),
            r@.len() == i,
            forall|j: int| 0 <= j < i ==> (#[trigger] r@[j])@ == trimmed(parts@[j]@),
        decreases parts.len() - i,
    {
        r.push(trim(parts[i].as_str()));
        i = i + 1;
    }
    assert(contents(r@) =~= cells(line@)) by {
        assert forall|j: int| 0 <= j < r@.len() implies contents(r@)[j] == cells(line@)[j] by {
            assert(contents(parts@)[j] == parts@[j]@);
        }
        assert(contents(parts@).len() == parts@.len());
    }
    r
}

fn read_table(text: &str) -> (r: Vec<Vec<String>>)
    ensures
        rows_view(r@) == csv_table(text@),
{
    let lines = split(text, '\n');
    let ghost all = contents(lines@);
    let mut r: Vec<Vec<String>> = Vec::new();
    let mut i: usize = 0;
    assert(rows_view(r@) =~= not_blank(all.take(0)).map_values(|line: Seq<char>| cells(line)));
    while i < lines.len()
        invariant
            i <= lines.len(),
            all == contents(lines@),
            rows_view(r@) == not_blank(all.take(i as int)).map_values(|line: Seq<char>| cells(line)),
        decreases lines.len() - i,
    {
        let line: &str = lines[i].as_str();
        proof {
            assert(all.take(i + 1).drop_last() =~= all.take(i as int));
            assert(all.take(i + 1).last() == line@);
        }
        let t = trim(line);
        if !t.as_str().is_empty() {
            let ghost held = rows_view(r@);
            r.push(read_cells(line));
            assert(rows_view(r@) =~= held.push(cells(line@)));
            assert(not_blank(all.take(i + 1)).map_values(|line: Seq<char>| cells(line)) =~= held.push(
                cells(line@),
            ));
        }
        i = i + 1;
    }
    assert(all.take(i as int) =~= all);
    r
}

/// A table of cells.
pub type Table = Seq<Seq<Seq<char>>>;

/// Whether the second row names units: its first cell is no number.
pub open spec fn has_units(t: Table) -> bool {
    t.len() > 1 && t[1].len() > 0 && double_literal(t[1][0]) is None
}

/// The first row with values.
pub open spec fn first_row(t: Table) -> int {
    if has_units(t) {
        2
    } else {
        1
    }
}

/// Whether a row has a number in each of its first `n` cells.
pub open spec fn numeric_row(row: Seq<Seq<char>>, n: int) -> bool {
    forall|j: int| 0 <= j < n ==> double_literal(#[trigger] row[j]) is Some
}

/// Whether a table is a log: the first column is named `time`, all rows have its width,
/// and every cell with a value is a number.
pub open spec fn is_log_table(t: Table) -> bool {
    &&& t.len() > 0
    &&& t[0].len() > 0
    &&& t[0][0] == "time"@
    &&& forall|i: int| 0 <= i < t.len() ==> (#[trigger] t[i]).len() == t[0].len()
    &&& forall|i: int|
        first_row(t) <= i < t.len() ==> numeric_row(#[trigger] t[i], t[0].len() as int)
}

/// The number in a cell.
pub open spec fn cell_number(t: Table, i: int, j: int) -> F64 {
    double_literal(t[i][j])->Some_0
}

/// Whether a series holds a column of a table.
pub open spec fn is_column(s: InputSeries, t: Table, j: int) -> bool {
    s.channel@ == t[0][j] && (s.kind matches InputKind::Series(points) && points@.len() == t.len()
        - first_row(t) && forall|i: int|
        0 <= i < points@.len() ==> #[trigger] points@[i] == (
            cell_number(t, first_row(t) + i, 0),
            Value::M1(M1Scalar::FloatingPoint(cell_number(t, first_row(t) + i, j).narrow())),
        ))
}

/// The last of the first `n` columns with a name.
pub open spec fn last_column(t: Table, name: Seq<char>, n: int) -> Option<int>
    decreases n,
{
    if n <= 1 {
        None
    } else if t[0][n - 1] == name {
        Some(n - 1)
    } else {
        last_column(t, name, n - 1)
    }
}

/// Whether units are those of the first `n` columns of a table.
pub open spec fn are_units(units: Map<Seq<char>, String>, t: Table, n: int) -> bool {
    forall|name: Seq<char>|
        match last_column(t, name, n) {
            Some(j) if has_units(t) => #[trigger] units.contains_key(name) && units[name]@ == t[1][j],
            _ => !units.contains_key(name),
        }
}

fn is_number(s: &str) -> (r: bool)
    ensures
        r == (double_literal(s@) is Some),
{
    parse_double(s).is_some()
}

/// Whether a table is a log.
fn check_table(t: &Vec<Vec<String>>, first: usize) -> (r: bool)
    requires
        first == first_row(rows_view(t@)),
    ensures
        r == is_log_table(rows_view(t@)),
{
    let ghost v = rows_view(t@);
    if t.len() == 0 || t[0].len() == 0 {
        proof {
            assert(v.len() == t@.len());
            if t@.len() > 0 {
                assert(v[0].len() == t@[0]@.len());
            }
        }
        return false;
    }
    assert(v[0] == contents(t@[0]@));
    assert(v[0][0] == t@[0]@[0]@);
    if !same(t[0][0].as_str(), "time") {
        return false;
    }
    let width: usize = t[0].len();
    let mut i: usize = 0;
    while i < t.len()
        invariant
            i <= t.len(),
            t.len() > 0,
            v == rows_view(t@),
            first == first_row(v),
            width == v[0].len(),
            forall|k: int| 0 <= k < i ==> (#[trigger] v[k]).len() == width,
            forall|k: int| first <= k < i ==> numeric_row(#[trigger] v[k], width as int),
        decreases t.len() - i,
    {
        assert(v[i as int] == contents(t@[i as int]@));
        if t[i].len() != width {
            assert(v[i as int].len() != width);
            return false;
        }
        if i >= first {
            let mut j: usize = 0;
            while j < width
                invariant
                    i < t.len(),
                    first <= i,
                    j <= width,
                    v == rows_view(t@),
                    first == first_row(v),
                    width == v[0].len(),
                    v[i as int] == contents(t@[i as int]@),
                    t@[i as int]@.len() == width,
                    numeric_row(v[i as int], j as int),
                decreases width - j,
            {
                assert(v[i as int][j as int] == t@[i as int]@[j as int]@);
                if !is_number(t[i][j].as_str()) {
                    assert(!numeric_row(v[i as int], width as int));
                    return false;
                }
                j = j + 1;
            }
        }
        i = i + 1;
    }
    true
}

/// The number in a cell that has one.
fn number_in(s: &str) -> (r: F64)
    requires
        double_literal(s@) is Some,
    ensures
        r == double_literal(s@)->Some_0,
{
    match parse_double(s) {
        Some(v) => v,
        None => F64::from_bits(0),
    }
}

/// The series of a column.
fn read_column(t: &Vec<Vec<String>>, first: usize, j: usize) -> (r: InputSeries)
    requires
        is_log_table(rows_view(t@)),
        first == first_row(rows_view(t@)),
        j < rows_view(t@)[0].len(),
    ensures
        is_column(r, rows_view(t@), j as int),
{
    let ghost v = rows_view(t@);
    assert(v[0] == contents(t@[0]@));
    let mut points: Vec<(F64, Value)> = Vec::new();
    let mut i: usize = first;
    proof {
        assert(first <= v.len());
    }
    while i < t.len()
        invariant
            first <= i <= t.len(),
            v == rows_view(t@),
            is_log_table(v),
            first == first_row(v),
            j < v[0].len(),
            points@.len() == i - first,
            forall|k: int|
                0 <= k < points@.len() ==> #[trigger] points@[k] == (
                    cell_number(v, first + k, 0),
                    Value::M1(M1Scalar::FloatingPoint(cell_number(v, first + k, j as int).narrow())),
                ),
        decreases t.len() - i,
    {
        proof {
            assert(v[i as int] == contents(t@[i as int]@));
            assert(v[i as int].len() == v[0].len());
            assert(numeric_row(v[i as int], v[0].len() as int));
            assert(v[i as int][0] == t@[i as int]@[0]@);
            assert(v[i as int][j as int] == t@[i as int]@[j as int]@);
        }
        let time = number_in(t[i][0].as_str());
        let x = number_in(t[i][j].as_str());
        points.push((time, Value::m1_float(x.narrow())));
        i = i + 1;
    }
    assert(v[0][j as int] == t@[0]@[j as int]@);
    InputSeries { channel: t[0][j].clone(), kind: InputKind::Series(points) }
}

/// Whether an error says that a text is no log in CSV.
pub open spec fn is_table_error(e: EvalError) -> bool {
    e matches EvalError::UnsupportedConstruct { kind, at } && kind@
        == "CSV log that is no table of `time` and numbers"@ && at == 0
}

/// Whether a log is what a CSV text holds.
pub open spec fn reads_csv(log: Log, text: Seq<char>, source: Seq<char>) -> bool {
    let t = csv_table(text);
    &&& is_log_table(t)
    &&& log.channels@.len() == t[0].len() - 1
    &&& forall|j: int|
        0 <= j < log.channels@.len() ==> is_column(#[trigger] log.channels@[j], t, j + 1)
    &&& log.meta.source@ == source
    &&& are_units(log.meta.units@, t, t[0].len() as int)
}

impl Log {
    /// Reads a log in CSV: a `time` column and one column for each channel, with an optional
    /// row of units under the header. What is no such table is refused.
    pub fn from_csv(text: &str, source: String) -> (r: Result<Log, EvalError>)
        ensures
            match r {
                Ok(log) => reads_csv(log, text@, source@),
                Err(e) => !is_log_table(csv_table(text@)) && is_table_error(e),
            },
    {
        let t = read_table(text);
        let ghost v = rows_view(t@);
        let mut named = false;
        if t.len() > 1 {
            assert(v[1] == contents(t@[1]@));
            if t[1].len() > 0 {
                assert(v[1][0] == t@[1]@[0]@);
                named = !is_number(t[1][0].as_str());
            }
        }
        let first: usize = if named {
            2
        } else {
            1
        };
        if !check_table(&t, first) {
            return Err(
                EvalError::UnsupportedConstruct {
                    kind: "CSV log that is no table of `time` and numbers".to_owned(),
                    at: 0,
                },
            );
        }
        assert(v[0] == contents(t@[0]@));
        let mut channels: Vec<InputSeries> = Vec::new();
        let mut units: TextMap<String> = TextMap::new();
        let mut j: usize = 1;
        while j < t[0].len()
            invariant
                v == rows_view(t@),
                is_log_table(v),
                t.len() > 0,
                v[0] == contents(t@[0]@),
                first == first_row(v),
                named == has_units(v),
                1 <= j <= v[0].len(),
                channels@.len() == j - 1,
                forall|k: int|
                    0 <= k < channels@.len() ==> is_column(#[trigger] channels@[k], v, k + 1),
                are_units(units@, v, j as int),
            decreases v[0].len() - j,
        {
            channels.push(read_column(&t, first, j));
            assert(v[0][j as int] == t@[0]@[j as int]@);
            let ghost known = units@;
            if named {
                proof {
                    assert(v[1] == contents(t@[1]@));
                    assert(v[1].len() == v[0].len());
                    assert(v[1][j as int] == t@[1]@[j as int]@);
                }
                units.insert(t[0][j].clone(), t[1][j].clone());
            }
            proof {
                assert forall|name: Seq<char>|
                    match last_column(v, name, j + 1) {
                        Some(m) if has_units(v) => #[trigger] units@.contains_key(name)
                            && units@[name]@ == v[1][m],
                        _ => !units@.contains_key(name),
                    } by {
                    assert(known.contains_key(name) || !known.contains_key(name));
                }
            }
            j = j + 1;
        }
        Ok(Log { channels, meta: LogMeta { source, units } })
    }

    /// The names of the channels, in order.
    pub fn channel_names(&self) -> (r: Vec<String>)
        ensures
            r@.len() == self.channels@.len(),
            forall|i: int| 0 <= i < r@.len() ==> (#[trigger] r@[i])@ == self.channels@[i].channel@,
    {
        let mut r: Vec<String> = Vec::new();
        let mut i: usize = 0;
        while i < self.channels.len()
            invariant
                i <= self.channels.len(),
                r@.len() == i,
                forall|j: int|
                    0 <= j < i ==> (#[trigger] r@[j])@ == self.channels@[j].channel@,
            decreases self.channels.len() - i,
        {
            r.push(self.channels[i].channel.clone());
            i = i + 1;
        }
        r
    }
}

} // verus!
