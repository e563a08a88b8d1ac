//! Tide and current station CSV exports.
use vstd::prelude::*;
use crate::error::{HarborError, Result, Fault};
use crate::model::{TideReading, SpecTide, seq_view};
use crate::text::{
    trim, lines, lower, vec_views, chars_of, lines_of, trim_bounds, lower_chars, eq_lit, string_of,
};

verus! {

/// The lines of `ls` that are not blank, in order.
pub open spec fn nonblank(ls: Seq<Seq<char>>) -> Seq<Seq<char>>
    decreases ls.len(),
{
    if ls.len() == 0 {
        Seq::empty()
    } else {
        let prev = nonblank(ls.drop_last());
        if trim(ls.last()).len() > 0 {
            prev.push(ls.last())
        } else {
            prev
        }
    }
}

/// The fields of the rest `s` of a CSV line, given the field `cur` read so
/// far and whether a quote is open: fields end at unquoted commas, quotes
/// toggle quoting and are dropped, a doubled quote inside quotes stands for
/// one, and every field is trimmed.
pub open spec fn csv_from(s: Seq<char>, cur: Seq<char>, quoted: bool) -> Seq<Seq<char>>
    decreases s.len(),
{
    if s.len() == 0 {
        seq![trim(cur)]
    } else {
        let ch = s[0];
        if ch == '"' {
            if quoted && s.len() > 1 && s[1] == '"' {
                csv_from(s.skip(2), cur.push('"'), quoted)
            } else {
                csv_from(s.skip(1), cur, !quoted)
            }
        } else if ch == ',' && !quoted {
            seq![trim(cur)] + csv_from(s.skip(1), Seq::empty(), false)
        } else {
            csv_from(s.skip(1), cur.push(ch), quoted)
        }
    }
}

/// The fields of a CSV line.
pub open spec fn csv_fields(line: Seq<char>) -> Seq<Seq<char>> {
    csv_from(line, Seq::empty(), false)
}

/// The index of the first column that equals one of `names`.
pub open spec fn first_column(cols: Seq<Seq<char>>, names: Seq<Seq<char>>) -> Option<int>
    decreases cols.len(),
{
    if cols.len() == 0 {
        None
    } else {
        match first_column(cols.drop_last(), names) {
            Some(i) => Some(i),
            None => if names.contains(cols.last()) {
                Some(cols.len() - 1)
            } else {
                None
            },
        }
    }
}

pub open spec fn station_names() -> Seq<Seq<char>> {
    seq!["station"@, "station_id"@, "station id"@]
}

pub open spec fn time_names() -> Seq<Seq<char>> {
    seq!["time"@, "timestamp"@, "date time"@, "datetime"@]
}

pub open spec fn observed_names() -> Seq<Seq<char>> {
    seq!["water_level"@, "observed"@, "verified"@, "prediction"@]
}

pub open spec fn predicted_names() -> Seq<Seq<char>> {
    seq!["predicted"@, "predicted_level"@, "prediction"@]
}

pub open spec fn quality_names() -> Seq<Seq<char>> {
    seq!["quality"@, "qc"@, "sigma"@]
}

/// The field at `idx`, where there is an index and the row has the field.
pub open spec fn get_field(f: Seq<Seq<char>>, idx: Option<int>) -> Option<Seq<char>> {
    match idx {
        Some(i) => if 0 <= i < f.len() {
            Some(f[i])
        } else {
            None
        },
        None => None,
    }
}

/// The column layout of a tide CSV export: where its station, time,
/// observed, predicted and quality columns are.
pub struct TideColumns {
    pub station: int,
    pub time: int,
    pub observed: Option<int>,
    pub predicted: Option<int>,
    pub quality: Option<int>,
}

pub open spec fn columns_spec(header: Seq<char>) -> TideColumns {
    let cols = csv_fields(header).map_values(|c: Seq<char>| lower(c));
    TideColumns {
        station: match first_column(cols, station_names()) {
            Some(i) => i,
            None => 0,
        },
        time: match first_column(cols, time_names()) {
            Some(i) => i,
            None => 1,
        },
        observed: first_column(cols, observed_names()),
        predicted: first_column(cols, predicted_names()),
        quality: first_column(cols, quality_names()),
    }
}

/// The readings of the data rows `rows`: rows without a station or time
/// field are skipped.
pub open spec fn tide_rows(rows: Seq<Seq<char>>, c: TideColumns) -> Seq<SpecTide>
    decreases rows.len(),
{
    if rows.len() == 0 {
        Seq::empty()
    } else {
        let prev = tide_rows(rows.drop_last(), c);
        let f = csv_fields(rows.last());
        if f.len() <= c.station || f.len() <= c.time {
            prev
        } else {
            prev.push(SpecTide {
                station: f[c.station],
                timestamp: f[c.time],
                observed_m: get_field(f, c.observed),
                predicted_m: get_field(f, c.predicted),
                residual_bits: None,
                quality: match get_field(f, c.quality) {
                    Some(q) => if q.len() == 0 {
                        None
                    } else {
                        Some(q)
                    },
                    None => None,
                },
            })
        }
    }
}

/// The readings of a tide CSV export: the first non-blank line is the
/// header, and at most 4096 non-blank data lines follow.
pub open spec fn tide_spec(text: Seq<char>) -> core::result::Result<Seq<SpecTide>, Fault> {
    let ls = nonblank(lines(text));
    if ls.len() == 0 {
        Err(Fault::CsvSyntax("header"@))
    } else {
        let rows = ls.skip(1);
        let n = if rows.len() > 4096 { 4096 } else { rows.len() };
        Ok(tide_rows(rows.take(n as int), columns_spec(ls[0])))
    }
}

proof fn lemma_tide_rows_len(rows: Seq<Seq<char>>, c: TideColumns)
    ensures
        tide_rows(rows, c).len() <= rows.len(),
        forall|k: int| 0 <= k < tide_rows(rows, c).len() ==> (#[trigger] tide_rows(rows, c)[k]).residual_bits is None,
    decreases rows.len(),
{
    if rows.len() > 0 {
        lemma_tide_rows_len(rows.drop_last(), c);
    }
}

/// A tide export gives at most 4096 readings, one for each data line at
/// most, and leaves each reading's residual for the caller to work out.
pub proof fn lemma_tide_readings_bounded(text: Seq<char>)
    ensures
        tide_spec(text) matches Ok(v) ==> v.len() <= 4096 && v.len() + 1 <= nonblank(lines(text)).len()
            && forall|k: int| 0 <= k < v.len() ==> (#[trigger] v[k]).residual_bits is None,
{
    let ls = nonblank(lines(text));
    if ls.len() > 0 {
        let rows = ls.skip(1);
        let n = if rows.len() > 4096 { 4096 } else { rows.len() };
        lemma_tide_rows_len(rows.take(n as int), columns_spec(ls[0]));
    }
}

/// The field of `f` at the optional column `col`, where both are there.
pub open spec fn column_text(f: Seq<Seq<char>>, col: Option<int>) -> Option<Seq<char>> {
    match col {
        Some(j) => if 0 <= j < f.len() {
            Some(f[j])
        } else {
            None
        },
        None => None,
    }
}

/// The reading `r` is what the data line with fields `f` gives under the
/// columns `c`: the line has a station and a time field, and the reading
/// holds them, the observed and predicted levels' text from their columns,
/// the quality where its field is not empty, and no residual.
pub open spec fn reads_row(r: SpecTide, f: Seq<Seq<char>>, c: TideColumns) -> bool {
    &&& 0 <= c.station < f.len()
    &&& 0 <= c.time < f.len()
    &&& r.station == f[c.station]
    &&& r.timestamp == f[c.time]
    &&& r.observed_m == column_text(f, c.observed)
    &&& r.predicted_m == column_text(f, c.predicted)
    &&& r.residual_bits is None
    &&& r.quality == match column_text(f, c.quality) {
        Some(q) => if q.len() > 0 {
            Some(q)
        } else {
            None
        },
        None => None,
    }
}

/// Every tide reading is read from one of the data lines, and every data
/// line with a station and a time field gives a reading, in order: the
/// readings of `rows` followed by one more line are those of `rows`, then
/// the reading of that line where it has both fields.
pub proof fn lemma_tide_rows_read(rows: Seq<Seq<char>>, c: TideColumns)
    requires
        c.station >= 0,
        c.time >= 0,
    ensures
        forall|k: int|
            0 <= k < tide_rows(rows, c).len() ==> exists|i: int|
                0 <= i < rows.len() && reads_row(#[trigger] tide_rows(rows, c)[k], csv_fields(rows[i]), c),
        rows.len() > 0 ==> {
            let f = csv_fields(rows.last());
            let prev = tide_rows(rows.drop_last(), c);
            if c.station < f.len() && c.time < f.len() {
                tide_rows(rows, c).len() == prev.len() + 1 && tide_rows(rows, c).drop_last() == prev
                    && reads_row(tide_rows(rows, c).last(), f, c)
            } else {
                tide_rows(rows, c) == prev
            }
        },
    decreases rows.len(),
{
    if rows.len() > 0 {
        let prev_rows = rows.drop_last();
        lemma_tide_rows_read(prev_rows, c);
        let out = tide_rows(rows, c);
        let prev = tide_rows(prev_rows, c);
        let f = csv_fields(rows.last());
        assert forall|k: int| 0 <= k < out.len() implies exists|i: int|
            0 <= i < rows.len() && reads_row(#[trigger] out[k], csv_fields(rows[i]), c) by {
            if k < prev.len() {
                assert(out[k] == prev[k]);
                let i = choose|i: int| 0 <= i < prev_rows.len() && reads_row(prev[k], csv_fields(prev_rows[i]), c);
                assert(rows[i] == prev_rows[i]);
            } else {
                assert(reads_row(out[k], csv_fields(rows[rows.len() - 1]), c));
            }
        }
        if c.station < f.len() && c.time < f.len() {
            assert(out.drop_last() =~= prev);
        }
    }
}

/// Each reading of a tide export is read, under the columns that the header
/// (the first non-blank line) names, from one of the at most 4096 non-blank
/// lines after it.
pub proof fn lemma_tide_readings_from_lines(text: Seq<char>)
    ensures
        tide_spec(text) matches Ok(v) ==> {
            let ls = nonblank(lines(text));
            forall|k: int|
                0 <= k < v.len() ==> exists|i: int|
                    1 <= i < ls.len() && i <= 4096 && reads_row(
                        #[trigger] v[k],
                        csv_fields(ls[i]),
                        columns_spec(ls[0]),
                    )
        },
{
    let ls = nonblank(lines(text));
    if ls.len() > 0 {
        let rows = ls.skip(1);
        let n = if rows.len() > 4096 { 4096 } else { rows.len() };
        let data = rows.take(n as int);
        let c = columns_spec(ls[0]);
        lemma_columns_by_name(ls[0]);
        lemma_tide_rows_read(data, c);
        let v = tide_rows(data, c);
        assert forall|k: int| 0 <= k < v.len() implies exists|i: int|
            1 <= i < ls.len() && i <= 4096 && reads_row(#[trigger] v[k], csv_fields(ls[i]), c) by {
            let i = choose|i: int| 0 <= i < data.len() && reads_row(v[k], csv_fields(data[i]), c);
            assert(data[i] == ls[i + 1]);
        }
    }
}

/// `found` is where the first column that `p` picks is, or none where `p`
/// picks no column.
pub open spec fn first_match(cols: Seq<Seq<char>>, found: Option<int>, p: spec_fn(Seq<char>) -> bool) -> bool {
    match found {
        Some(i) => 0 <= i < cols.len() && p(cols[i]) && forall|j: int| 0 <= j < i ==> !p(#[trigger] cols[j]),
        None => forall|j: int| 0 <= j < cols.len() ==> !p(#[trigger] cols[j]),
    }
}

proof fn lemma_first_column(cols: Seq<Seq<char>>, names: Seq<Seq<char>>, p: spec_fn(Seq<char>) -> bool)
    requires
        forall|c: Seq<char>| #[trigger] names.contains(c) <==> p(c),
    ensures
        first_match(cols, first_column(cols, names), p),
    decreases cols.len(),
{
    if cols.len() > 0 {
        let prev = cols.drop_last();
        lemma_first_column(prev, names, p);
        assert(names.contains(cols.last()) <==> p(cols.last()));
        match first_column(prev, names) {
            Some(i) => {
                assert(cols[i] == prev[i]);
                assert forall|j: int| 0 <= j < i implies !p(#[trigger] cols[j]) by {
                    assert(cols[j] == prev[j]);
                }
            },
            None => {
                assert forall|j: int| 0 <= j < cols.len() - 1 implies !p(#[trigger] cols[j]) by {
                    assert(cols[j] == prev[j]);
                }
            },
        }
    }
}

proof fn lemma_names3(n: Seq<Seq<char>>, a: Seq<char>, b: Seq<char>, c: Seq<char>, p: spec_fn(Seq<char>) -> bool)
    requires
        n == seq![a, b, c],
        forall|x: Seq<char>| #[trigger] p(x) <==> (x == a || x == b || x == c),
    ensures
        forall|x: Seq<char>| #[trigger] n.contains(x) <==> p(x),
{
    assert forall|x: Seq<char>| #[trigger] n.contains(x) <==> p(x) by {
        if x == a {
            assert(n[0] == x);
        } else if x == b {
            assert(n[1] == x);
        } else if x == c {
            assert(n[2] == x);
        }
    }
}

proof fn lemma_names4(
    n: Seq<Seq<char>>,
    a: Seq<char>,
    b: Seq<char>,
    c: Seq<char>,
    d: Seq<char>,
    p: spec_fn(Seq<char>) -> bool,
)
    requires
        n == seq![a, b, c, d],
        forall|x: Seq<char>| #[trigger] p(x) <==> (x == a || x == b || x == c || x == d),
    ensures
        forall|x: Seq<char>| #[trigger] n.contains(x) <==> p(x),
{
    assert forall|x: Seq<char>| #[trigger] n.contains(x) <==> p(x) by {
        if x == a {
            assert(n[0] == x);
        } else if x == b {
            assert(n[1] == x);
        } else if x == c {
            assert(n[2] == x);
        } else if x == d {
            assert(n[3] == x);
        }
    }
}

/// The columns of a tide export are found by their names in the header,
/// compared in lower case, the first match counting: the station is the
/// column named `station`, `station_id` or `station id` (else column 0), the
/// time the one named `time`, `timestamp`, `date time` or `datetime` (else
/// column 1), the observed level the one named `water_level`, `observed`,
/// `verified` or `prediction`, the predicted level the one named
/// `predicted`, `predicted_level` or `prediction`, and the quality the one
/// named `quality`, `qc` or `sigma`.
pub proof fn lemma_columns_by_name(header: Seq<char>)
    ensures
        ({
            let cols = csv_fields(header).map_values(|c: Seq<char>| lower(c));
            let c = columns_spec(header);
            let station = |x: Seq<char>| x == "station"@ || x == "station_id"@ || x == "station id"@;
            let time = |x: Seq<char>| x == "time"@ || x == "timestamp"@ || x == "date time"@ || x == "datetime"@;
            let observed = |x: Seq<char>|
                x == "water_level"@ || x == "observed"@ || x == "verified"@ || x == "prediction"@;
            let predicted = |x: Seq<char>| x == "predicted"@ || x == "predicted_level"@ || x == "prediction"@;
            let quality = |x: Seq<char>| x == "quality"@ || x == "qc"@ || x == "sigma"@;
            &&& first_match(cols, Some(c.station), station) || (first_match(cols, None, station) && c.station == 0)
            &&& first_match(cols, Some(c.time), time) || (first_match(cols, None, time) && c.time == 1)
            &&& first_match(cols, c.observed, observed)
            &&& first_match(cols, c.predicted, predicted)
            &&& first_match(cols, c.quality, quality)
        }),
{
    let cols = csv_fields(header).map_values(|c: Seq<char>| lower(c));
    let station = |x: Seq<char>| x == "station"@ || x == "station_id"@ || x == "station id"@;
    let time = |x: Seq<char>| x == "time"@ || x == "timestamp"@ || x == "date time"@ || x == "datetime"@;
    let observed = |x: Seq<char>| x == "water_level"@ || x == "observed"@ || x == "verified"@ || x == "prediction"@;
    let predicted = |x: Seq<char>| x == "predicted"@ || x == "predicted_level"@ || x == "prediction"@;
    let quality = |x: Seq<char>| x == "quality"@ || x == "qc"@ || x == "sigma"@;
    lemma_names3(station_names(), "station"@, "station_id"@, "station id"@, station);
    lemma_names4(time_names(), "time"@, "timestamp"@, "date time"@, "datetime"@, time);
    lemma_names4(observed_names(), "water_level"@, "observed"@, "verified"@, "prediction"@, observed);
    lemma_names3(predicted_names(), "predicted"@, "predicted_level"@, "prediction"@, predicted);
    lemma_names3(quality_names(), "quality"@, "qc"@, "sigma"@, quality);
    lemma_first_column(cols, station_names(), station);
    lemma_first_column(cols, time_names(), time);
    lemma_first_column(cols, observed_names(), observed);
    lemma_first_column(cols, predicted_names(), predicted);
    lemma_first_column(cols, quality_names(), quality);
}

/// Parses a tide CSV export.
pub fn parse_tide_csv(text: &str) -> (r: Result<Vec<TideReading>>)
    ensures
        match tide_spec(text@) {
            Ok(v) => r matches Ok(x) && seq_view(x@) == v,
            Err(f) => r matches Err(e) && e@ == f,
        },
{
    let t = chars_of(text);
    let all = lines_of(t.as_slice());
    assert(vec_views(all@) =~= lines(text@));
    let ls = nonblank_lines(&all);
    if ls.len() == 0 {
        return Err(HarborError::CsvSyntax("header"));
    }
    let ghost lv = vec_views(ls@);
    let header = split_csv_line(ls[0].as_slice());
    let mut columns: Vec<String> = Vec::new();
    let mut k: usize = 0;
    let ghost hv = vec_views(header@);
    while k < header.len()
        invariant
            k <= header@.len(),
            hv == vec_views(header@),
            columns.deep_view() == hv.take(k as int).map_values(|c: Seq<char>| lower(c)),
        decreases header.len() - k,
    {
        let l = lower_chars(header[k].as_slice());
        let s = string_of(l.as_slice());
        let ghost before = columns@;
        columns.push(s);
        assert(columns.deep_view() =~= before.map_values(|x: String| x.deep_view()).push(s@));
        assert(hv.take(k + 1) =~= hv.take(k as int).push(hv[k as int]));
        assert(hv.take(k + 1).map_values(|c: Seq<char>| lower(c)) =~= hv.take(k as int).map_values(|c: Seq<char>| lower(c)).push(lower(hv[k as int])));
        k += 1;
    }
    assert(hv.take(header@.len() as int) =~= hv);
    assert(lv[0] == ls@[0]@);
    let station_names_arr = ["station", "station_id", "station id"];
    let time_names_arr = ["time", "timestamp", "date time", "datetime"];
    let observed_names_arr = ["water_level", "observed", "verified", "prediction"];
    let predicted_names_arr = ["predicted", "predicted_level", "prediction"];
    let quality_names_arr = ["quality", "qc", "sigma"];
    assert(station_names_arr@.map_values(|n: &str| n@) =~= station_names());
    assert(time_names_arr@.map_values(|n: &str| n@) =~= time_names());
    assert(observed_names_arr@.map_values(|n: &str| n@) =~= observed_names());
    assert(predicted_names_arr@.map_values(|n: &str| n@) =~= predicted_names());
    assert(quality_names_arr@.map_values(|n: &str| n@) =~= quality_names());
    let station_idx = match find_column(columns.as_slice(), &station_names_arr) {
        Some(i) => i,
        None => 0,
    };
    let time_idx = match find_column(columns.as_slice(), &time_names_arr) {
        Some(i) => i,
        None => 1,
    };
    let observed_idx = find_column(columns.as_slice(), &observed_names_arr);
    let predicted_idx = find_column(columns.as_slice(), &predicted_names_arr);
    let quality_idx = find_column(columns.as_slice(), &quality_names_arr);
    let ghost cols = columns_spec(lv[0]);
    assert(columns.deep_view() == csv_fields(lv[0]).map_values(|c: Seq<char>| lower(c)));
    assert(cols.station == station_idx);
    assert(cols.time == time_idx);
    assert(cols.observed == opt_int(observed_idx));
    assert(cols.predicted == opt_int(predicted_idx));
    assert(cols.quality == opt_int(quality_idx));
    let mut readings: Vec<TideReading> = Vec::new();
    let mut i: usize = 1;
    let ghost rows = lv.skip(1);
    let end: usize = if ls.len() - 1 > 4096 { 4097 } else { ls.len() };
    assert(rows.take(0) =~= Seq::<Seq<char>>::empty());
    assert(seq_view(readings@) =~= Seq::<SpecTide>::empty());
    while i < end
        invariant
            1 <= i <= end <= ls@.len(),
            lv == vec_views(ls@),
            rows == lv.skip(1),
            cols.station == station_idx,
            cols.time == time_idx,
            cols.observed == opt_int(observed_idx),
            cols.predicted == opt_int(predicted_idx),
            cols.quality == opt_int(quality_idx),
            seq_view(readings@) == tide_rows(rows.take(i - 1), cols),
        decreases end - i,
    {
        assert(rows.take(i as int).drop_last() =~= rows.take(i - 1));
        assert(rows.take(i as int).last() == ls@[i as int]@);
        let fields = split_csv_line(ls[i].as_slice());
        if fields.len() > station_idx && fields.len() > time_idx {
            let station = string_of(fields[station_idx].as_slice());
            let timestamp = string_of(fields[time_idx].as_slice());
            let observed_m = field_text(&fields, observed_idx);
            let predicted_m = field_text(&fields, predicted_idx);
            let quality = match field_text(&fields, quality_idx) {
                Some(q) => if q.as_str().is_empty() {
                    None
                } else {
                    Some(q)
                },
                None => None,
            };
            let reading = TideReading {
                station,
                timestamp,
                observed_m,
                predicted_m,
                residual_bits: None,
                quality,
            };
            let ghost before = seq_view(readings@);
            let ghost rv = reading@;
            readings.push(reading);
            assert(seq_view(readings@) =~= before.push(rv));
        }
        i += 1;
    }
    proof {
        let n = if rows.len() > 4096 { 4096 } else { rows.len() };
        assert(end - 1 == n);
    }
    Ok(readings)
}

pub open spec fn opt_int(o: Option<usize>) -> Option<int> {
    match o {
        Some(i) => Some(i as int),
        None => None,
    }
}

/// The text of field `idx`, where there is an index and the row has it.
fn field_text(fields: &Vec<Vec<char>>, idx: Option<usize>) -> (r: Option<String>)
    ensures
        r.deep_view() == get_field(vec_views(fields@), opt_int(idx)),
{
    match idx {
        Some(i) => if i < fields.len() {
            Some(string_of(fields[i].as_slice()))
        } else {
            None
        },
        None => None,
    }
}

/// The non-blank lines of `all`, in order.
fn nonblank_lines(all: &Vec<Vec<char>>) -> (out: Vec<Vec<char>>)
    ensures
        vec_views(out@) == nonblank(vec_views(all@)),
{
    let ghost av = vec_views(all@);
    let mut out: Vec<Vec<char>> = Vec::new();
    let mut i: usize = 0;
    assert(av.take(0) =~= Seq::<Seq<char>>::empty());
    assert(vec_views(out@) =~= Seq::<Seq<char>>::empty());
    while i < all.len()
        invariant
            i <= all@.len(),
            av == vec_views(all@),
            vec_views(out@) == nonblank(av.take(i as int)),
        decreases all.len() - i,
    {
        assert(av.take(i + 1).drop_last() =~= av.take(i as int));
        assert(av.take(i + 1).last() == all@[i as int]@);
        let (lo, hi) = trim_bounds(all[i].as_slice());
        if hi > lo {
            let l = crate::text::copy_range(all[i].as_slice(), 0, all[i].len());
            assert(l@ =~= all@[i as int]@);
            let ghost before = vec_views(out@);
            let ghost lv = l@;
            out.push(l);
            assert(vec_views(out@) =~= before.push(lv));
        }
        i += 1;
    }
    assert(av.take(all@.len() as int) =~= av);
    out
}

/// The fields of a CSV line.
fn split_csv_line(v: &[char]) -> (out: Vec<Vec<char>>)
    ensures
        vec_views(out@) == csv_fields(v@),
{
    let mut fields: Vec<Vec<char>> = Vec::new();
    let mut current: Vec<char> = Vec::new();
    let mut quoted = false;
    let mut i: usize = 0;
    assert(v@.skip(0) =~= v@);
    assert(vec_views(fields@) =~= Seq::<Seq<char>>::empty());
    assert(csv_fields(v@) =~= vec_views(fields@) + csv_from(v@.skip(0), current@, quoted));
    while i < v.len()
        invariant
            i <= v@.len(),
            csv_fields(v@) == vec_views(fields@) + csv_from(v@.skip(i as int), current@, quoted),
        decreases v.len() - i,
    {
        let ch = v[i];
        let ghost rest = v@.skip(i as int);
        assert(rest[0] == ch);
        if ch == '"' {
            if quoted && i + 1 < v.len() && v[i + 1] == '"' {
                assert(rest.skip(2) =~= v@.skip(i + 2));
                current.push('"');
                i += 2;
            } else {
                assert(rest.skip(1) =~= v@.skip(i + 1));
                quoted = !quoted;
                i += 1;
            }
        } else if ch == ',' && !quoted {
            assert(rest.skip(1) =~= v@.skip(i + 1));
            let trimmed = crate::text::trim_chars(current.as_slice());
            let ghost before = vec_views(fields@);
            let ghost tv = trimmed@;
            fields.push(trimmed);
            assert(vec_views(fields@) =~= before.push(tv));
            current = Vec::new();
            assert(csv_fields(v@) =~= vec_views(fields@) + csv_from(v@.skip(i + 1), current@, quoted));
            i += 1;
        } else {
            assert(rest.skip(1) =~= v@.skip(i + 1));
            current.push(ch);
            i += 1;
        }
    }
    let trimmed = crate::text::trim_chars(current.as_slice());
    let ghost before = vec_views(fields@);
    let ghost tv = trimmed@;
    fields.push(trimmed);
    assert(vec_views(fields@) =~= before.push(tv));
    assert(csv_fields(v@) =~= vec_views(fields@));
    fields
}

/// The index of the first column that equals one of `names`.
fn find_column(columns: &[String], names: &[&str]) -> (r: Option<usize>)
    ensures
        opt_int(r) == first_column(columns.deep_view(), names@.map_values(|n: &str| n@)),
{
    let ghost cols = columns.deep_view();
    let ghost nv = names@.map_values(|n: &str| n@);
    let mut i: usize = 0;
    assert(cols.take(0) =~= Seq::<Seq<char>>::empty());
    while i < columns.len()
        invariant
            i <= columns@.len(),
            cols == columns.deep_view(),
            nv == names@.map_values(|n: &str| n@),
            first_column(cols.take(i as int), nv) is None,
        decreases columns.len() - i,
    {
        assert(cols.take(i + 1).drop_last() =~= cols.take(i as int));
        assert(cols.take(i + 1).last() == columns@[i as int]@);
        let c = chars_of(columns[i].as_str());
        let mut k: usize = 0;
        let mut hit = false;
        while k < names.len()
            invariant
                k <= names@.len(),
                nv == names@.map_values(|n: &str| n@),
                hit == (exists|j: int| 0 <= j < k && nv[j] == c@),
            decreases names.len() - k,
        {
            if eq_lit(c.as_slice(), names[k]) {
                assert(nv[k as int] == c@);
                hit = true;
            }
            k += 1;
        }
        if hit {
            proof {
                let j = choose|j: int| 0 <= j < names@.len() && nv[j] == c@;
                assert(nv.contains(c@));
                assert(cols.take(i + 1).len() - 1 == i);
                assert(first_column(cols.take(i + 1), nv) == Some(i as int));
            }
            proof {
                lemma_first_column_prefix(cols, nv, i as int + 1);
            }
            return Some(i);
        }
        assert(!nv.contains(c@));
        i += 1;
    }
    assert(cols.take(columns@.len() as int) =~= cols);
    None
}

proof fn lemma_first_column_prefix(cols: Seq<Seq<char>>, names: Seq<Seq<char>>, k: int)
    requires
        0 <= k <= cols.len(),
        first_column(cols.take(k), names) is Some,
    ensures
        first_column(cols, names) == first_column(cols.take(k), names),
    decreases cols.len() - k,
{
    if k < cols.len() {
        assert(cols.take(k + 1).drop_last() =~= cols.take(k));
        lemma_first_column_prefix(cols, names, k + 1);
    } else {
        assert(cols.take(k) =~= cols);
    }
}

} // verus!
