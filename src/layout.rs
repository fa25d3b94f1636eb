use vstd::prelude::*;
use crate::text::{center, centered, int_to_text, int_text, push_char};
use crate::wrap::{texts, wrap, wrap_spec};

verus! {

/// The most description lines that one column shows.
pub const SHORT_LINE_MAX: usize = 6;

/// One half-day entry of a forecast.
pub struct ForecastPeriod {
    pub name: String,
    pub is_daytime: bool,
    pub short_forecast: String,
    pub temperature: i64,
    pub temperature_unit: String,
    pub wind_speed: String,
    pub wind_direction: String,
}

/// How many columns are drawn: as many as fit, and no more than there are periods.
pub open spec fn shown_count(period_count: nat, column_width: nat, terminal_width: nat) -> nat {
    let fit = terminal_width / column_width;
    if fit < period_count {
        fit
    } else {
        period_count
    }
}

/// The description lines of one column: its short forecast wrapped to one less
/// than the column width, cut to the most a column shows.
pub open spec fn desc_lines(p: ForecastPeriod, column_width: nat) -> Seq<Seq<char>> {
    let lines = wrap_spec(p.short_forecast@, (column_width - 1) as nat);
    if lines.len() > SHORT_LINE_MAX {
        lines.take(SHORT_LINE_MAX as int)
    } else {
        lines
    }
}

/// Line `j` of a column's description, blank below its last line.
pub open spec fn desc_cell(p: ForecastPeriod, j: int, column_width: nat) -> Seq<char> {
    let lines = desc_lines(p, column_width);
    if j < lines.len() {
        lines[j]
    } else {
        Seq::empty()
    }
}

/// The temperature cell: `High near 72°F` by day, `Low near 50°F` by night.
pub open spec fn temp_text(p: ForecastPeriod) -> Seq<char> {
    let label = if p.is_daytime {
        seq!['H', 'i', 'g', 'h', ' ', 'n', 'e', 'a', 'r']
    } else {
        seq!['L', 'o', 'w', ' ', 'n', 'e', 'a', 'r']
    };
    label + seq![' '] + int_text(p.temperature as int) + seq!['\u{b0}'] + p.temperature_unit@
}

/// The wind cell: speed and direction.
pub open spec fn wind_text(p: ForecastPeriod) -> Seq<char> {
    p.wind_speed@ + seq![' '] + p.wind_direction@
}

/// A row: each cell centred in the column width, left to right.
pub open spec fn join_cells(cells: Seq<Seq<char>>, column_width: nat) -> Seq<char>
    decreases cells.len(),
{
    if cells.len() == 0 {
        Seq::empty()
    } else {
        join_cells(cells.drop_last(), column_width) + centered(cells.last(), column_width)
    }
}

/// The most description lines over the columns drawn.
pub open spec fn max_lines(ps: Seq<ForecastPeriod>, column_width: nat) -> nat
    decreases ps.len(),
{
    if ps.len() == 0 {
        0
    } else {
        let prev = max_lines(ps.drop_last(), column_width);
        let here = desc_lines(ps.last(), column_width).len();
        if prev < here {
            here
        } else {
            prev
        }
    }
}

pub open spec fn name_row(ps: Seq<ForecastPeriod>, cw: nat) -> Seq<char> {
    join_cells(ps.map_values(|p: ForecastPeriod| p.name@), cw)
}

pub open spec fn desc_row(ps: Seq<ForecastPeriod>, j: int, cw: nat) -> Seq<char> {
    join_cells(ps.map_values(|p: ForecastPeriod| desc_cell(p, j, cw)), cw)
}

pub open spec fn temp_row(ps: Seq<ForecastPeriod>, cw: nat) -> Seq<char> {
    join_cells(ps.map_values(|p: ForecastPeriod| temp_text(p)), cw)
}

pub open spec fn wind_row(ps: Seq<ForecastPeriod>, cw: nat) -> Seq<char> {
    join_cells(ps.map_values(|p: ForecastPeriod| wind_text(p)), cw)
}

/// The forecast as rows of text: the names, as many description rows as the
/// fullest column needs, the temperatures and the winds, over the leading
/// periods that fit in the terminal.
pub open spec fn layout_rows(periods: Seq<ForecastPeriod>, cw: nat, tw: nat) -> Seq<Seq<char>> {
    let ps = periods.take(shown_count(periods.len(), cw, tw) as int);
    seq![name_row(ps, cw)] + Seq::new(max_lines(ps, cw), |j: int| desc_row(ps, j, cw)) + seq![
        temp_row(ps, cw),
        wind_row(ps, cw),
    ]
}

/// Number of columns of `column_width` characters that fit in `terminal_width`.
pub fn column_count(terminal_width: usize, column_width: usize) -> (r: usize)
    requires
        column_width > 0,
    ensures
        r == terminal_width / column_width,
{
    terminal_width / column_width
}

/// Number of columns drawn for `period_count` periods.
pub fn columns_shown(period_count: usize, column_width: usize, terminal_width: usize) -> (r: usize)
    requires
        column_width > 0,
    ensures
        r == shown_count(period_count as nat, column_width as nat, terminal_width as nat),
{
    let fit = column_count(terminal_width, column_width);
    if fit < period_count {
        fit
    } else {
        period_count
    }
}

fn temperature_cell(p: &ForecastPeriod) -> (r: String)
    ensures
        r@ == temp_text(*p),
{
    let mut r = if p.is_daytime {
        String::from_str("High near")
    } else {
        String::from_str("Low near")
    };
    push_char(&mut r, ' ');
    let t = int_to_text(p.temperature);
    r.append(t.as_str());
    push_char(&mut r, '\u{b0}');
    r.append(p.temperature_unit.as_str());
    proof {
        reveal_strlit("High near");
        reveal_strlit("Low near");
    }
    assert(r@ =~= temp_text(*p));
    r
}

fn wind_cell(p: &ForecastPeriod) -> (r: String)
    ensures
        r@ == wind_text(*p),
{
    let mut r = String::from_str(p.wind_speed.as_str());
    push_char(&mut r, ' ');
    r.append(p.wind_direction.as_str());
    assert(r@ =~= wind_text(*p));
    r
}

proof fn lemma_join_push(cells: Seq<Seq<char>>, c: Seq<char>, cw: nat)
    ensures
        join_cells(cells.push(c), cw) == join_cells(cells, cw) + centered(c, cw),
{
    assert(cells.push(c).drop_last() =~= cells);
}

/// Lays out the leading periods that fit in `terminal_width` as columns of
/// `column_width` characters.
pub fn render(periods: &Vec<ForecastPeriod>, column_width: usize, terminal_width: usize) -> (r: Vec<String>)
    requires
        column_width > 0,
    ensures
        texts(r@) == layout_rows(periods@, column_width as nat, terminal_width as nat),
{
    let cw = column_width;
    let count = columns_shown(periods.len(), cw, terminal_width);
    let ghost ps = periods@.take(count as int);
    let mut name = String::new();
    let mut temp = String::new();
    let mut wind = String::new();
    let mut short_lines: Vec<String> = Vec::new();
    let mut j: usize = 0;
    while j < SHORT_LINE_MAX
        invariant
            j <= SHORT_LINE_MAX,
            short_lines@.len() == j,
            forall|k: int| 0 <= k < j ==> (#[trigger] short_lines@[k])@ == Seq::<char>::empty(),
        decreases SHORT_LINE_MAX - j,
    {
        short_lines.push(String::new());
        j = j + 1;
    }
    let mut line_count: usize = 0;
    let mut n: usize = 0;
    proof {
        assert(ps.take(0) =~= Seq::<ForecastPeriod>::empty());
        assert forall|k: int| 0 <= k < SHORT_LINE_MAX implies (#[trigger] short_lines@[k])@ == desc_row(ps.take(0), k, cw as nat) by {
            assert(ps.take(0).map_values(|p: ForecastPeriod| desc_cell(p, k, cw as nat)) =~= Seq::<Seq<char>>::empty());
        }
        assert(ps.take(0).map_values(|p: ForecastPeriod| p.name@) =~= Seq::<Seq<char>>::empty());
        assert(ps.take(0).map_values(|p: ForecastPeriod| temp_text(p)) =~= Seq::<Seq<char>>::empty());
        assert(ps.take(0).map_values(|p: ForecastPeriod| wind_text(p)) =~= Seq::<Seq<char>>::empty());
    }
    while n < count
        invariant
            column_width == cw,
            cw > 0,
            count <= periods@.len(),
            ps == periods@.take(count as int),
            n <= count,
            short_lines@.len() == SHORT_LINE_MAX,
            name@ == name_row(ps.take(n as int), cw as nat),
            temp@ == temp_row(ps.take(n as int), cw as nat),
            wind@ == wind_row(ps.take(n as int), cw as nat),
            forall|k: int| 0 <= k < SHORT_LINE_MAX ==> (#[trigger] short_lines@[k])@ == desc_row(ps.take(n as int), k, cw as nat),
            line_count == max_lines(ps.take(n as int), cw as nat),
            line_count <= SHORT_LINE_MAX,
        decreases count - n,
    {
        let p = &periods[n];
        let ghost pre = ps.take(n as int);
        let ghost post = ps.take(n + 1);
        proof {
            assert(post =~= pre.push(*p));
            assert(post.drop_last() =~= pre);
            assert(post.map_values(|p: ForecastPeriod| p.name@) =~= pre.map_values(|p: ForecastPeriod| p.name@).push(p.name@));
            assert(post.map_values(|p: ForecastPeriod| temp_text(p)) =~= pre.map_values(|p: ForecastPeriod| temp_text(p)).push(temp_text(*p)));
            assert(post.map_values(|p: ForecastPeriod| wind_text(p)) =~= pre.map_values(|p: ForecastPeriod| wind_text(p)).push(wind_text(*p)));
            lemma_join_push(pre.map_values(|p: ForecastPeriod| p.name@), p.name@, cw as nat);
            lemma_join_push(pre.map_values(|p: ForecastPeriod| temp_text(p)), temp_text(*p), cw as nat);
            lemma_join_push(pre.map_values(|p: ForecastPeriod| wind_text(p)), wind_text(*p), cw as nat);
        }
        let cell = center(p.name.as_str(), cw);
        name.append(cell.as_str());
        let tcell = temperature_cell(p);
        let cell = center(tcell.as_str(), cw);
        temp.append(cell.as_str());
        let wcell = wind_cell(p);
        let cell = center(wcell.as_str(), cw);
        wind.append(cell.as_str());

        let lines = wrap(p.short_forecast.as_str(), cw - 1);
        let used = if lines.len() > SHORT_LINE_MAX {
            SHORT_LINE_MAX
        } else {
            lines.len()
        };
        let ghost dl = desc_lines(*p, cw as nat);
        proof {
            assert(texts(lines@) == wrap_spec(p.short_forecast@, (cw - 1) as nat));
            assert(dl.len() == used);
            assert forall|k: int| 0 <= k < used implies dl[k] == (#[trigger] lines@[k])@ by {
                assert(texts(lines@)[k] == lines@[k]@);
            }
        }
        let mut k: usize = 0;
        while k < SHORT_LINE_MAX
            invariant
                short_lines@.len() == SHORT_LINE_MAX,
                k <= SHORT_LINE_MAX,
                used <= lines@.len(),
                used == dl.len(),
                dl == desc_lines(*p, cw as nat),
                forall|m: int| 0 <= m < used ==> dl[m] == (#[trigger] lines@[m])@,
                forall|m: int| 0 <= m < k ==> (#[trigger] short_lines@[m])@ == desc_row(post, m, cw as nat),
                forall|m: int| k <= m < SHORT_LINE_MAX ==> (#[trigger] short_lines@[m])@ == desc_row(pre, m, cw as nat),
                post =~= pre.push(*p),
            decreases SHORT_LINE_MAX - k,
        {
            let cell = if k < used {
                center(lines[k].as_str(), cw)
            } else {
                center("", cw)
            };
            proof {
                reveal_strlit("");
                assert(post.map_values(|q: ForecastPeriod| desc_cell(q, k as int, cw as nat)) =~= pre.map_values(
                    |q: ForecastPeriod| desc_cell(q, k as int, cw as nat),
                ).push(desc_cell(*p, k as int, cw as nat)));
                lemma_join_push(
                    pre.map_values(|q: ForecastPeriod| desc_cell(q, k as int, cw as nat)),
                    desc_cell(*p, k as int, cw as nat),
                    cw as nat,
                );
                assert(cell@ == centered(desc_cell(*p, k as int, cw as nat), cw as nat));
            }
            let mut row = short_lines[k].clone();
            row.append(cell.as_str());
            short_lines.set(k, row);
            k = k + 1;
        }
        if line_count < used {
            line_count = used;
        }
        n = n + 1;
    }
    proof {
        assert(ps.take(count as int) =~= ps);
    }
    let mut rows: Vec<String> = Vec::new();
    rows.push(name);
    let mut j: usize = 0;
    while j < line_count
        invariant
            line_count <= SHORT_LINE_MAX,
            short_lines@.len() == SHORT_LINE_MAX,
            j <= line_count,
            rows@.len() == j + 1,
            rows@[0]@ == name_row(ps, cw as nat),
            forall|m: int| 0 <= m < j ==> (#[trigger] rows@[m + 1])@ == desc_row(ps, m, cw as nat),
            forall|k: int| 0 <= k < SHORT_LINE_MAX ==> (#[trigger] short_lines@[k])@ == desc_row(ps, k, cw as nat),
        decreases line_count - j,
    {
        let row = short_lines[j].clone();
        rows.push(row);
        j = j + 1;
    }
    rows.push(temp);
    rows.push(wind);
    proof {
        let want = layout_rows(periods@, cw as nat, terminal_width as nat);
        assert(line_count == max_lines(ps, cw as nat));
        assert(want.len() == line_count + 3);
        assert(texts(rows@).len() == want.len());
        assert forall|m: int| 0 <= m < want.len() implies texts(rows@)[m] == want[m] by {
            if m == 0 {
            } else if m <= line_count {
                assert(rows@[(m - 1) + 1]@ == desc_row(ps, m - 1, cw as nat));
            } else if m == line_count + 1 {
                assert(rows@[m]@ == temp_row(ps, cw as nat));
            } else {
                assert(rows@[m]@ == wind_row(ps, cw as nat));
            }
        }
    }
    assert(texts(rows@) =~= layout_rows(periods@, cw as nat, terminal_width as nat));
    rows
}

} // verus!
