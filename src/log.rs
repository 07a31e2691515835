use vstd::prelude::*;

use crate::number::{parse_isize, parse_isize_spec, parse_u64, parse_u64_spec};
use crate::text::{chars_of, lines_of, split_chars, split_lines, split_on, string_of};

verus! {

/// Why a log could not be turned into file lists.
#[derive(Debug, PartialEq, Eq)]
pub enum LogError {
    /// The log holds no data line.
    EmptyInput,
    /// The data line at `index` (counted from zero, header excluded) does not
    /// have exactly three comma-separated fields.
    MalformedRecord { index: usize, line: String },
    /// The ramp or vped field of the data line at `index` is not a number.
    InvalidNumber { index: usize, line: String },
    /// Run `index` closes a calibration group for which no ramp id is left.
    GroupOverrun { index: usize },
}

/// The comma-separated fields of a data line.
pub open spec fn fields_of(line: Seq<char>) -> Seq<Seq<char>> {
    split_on(line, ',')
}

/// A data line has exactly three fields.
pub open spec fn well_shaped(line: Seq<char>) -> bool {
    fields_of(line).len() == 3
}

/// A data line is a record: three fields, the second an unsigned ramp id and
/// the third a signed vped.
pub open spec fn record_ok(line: Seq<char>) -> bool {
    &&& well_shaped(line)
    &&& parse_u64_spec(fields_of(line)[1]) is Some
    &&& parse_isize_spec(fields_of(line)[2]) is Some
}

/// Line `k` is the first of `lines` that is not a record.
pub open spec fn first_bad(lines: Seq<Seq<char>>, k: int) -> bool {
    &&& 0 <= k < lines.len()
    &&& !record_ok(lines[k])
    &&& forall|j: int| 0 <= j < k ==> record_ok(#[trigger] lines[j])
}

/// The run ids, ramp ids and vpeds that `lines` hold, one of each per line.
pub open spec fn parsed_as(
    lines: Seq<Seq<char>>,
    ramps: Seq<u64>,
    runs: Seq<Seq<char>>,
    vpeds: Seq<isize>,
) -> bool {
    &&& ramps.len() == lines.len()
    &&& runs.len() == lines.len()
    &&& vpeds.len() == lines.len()
    &&& forall|k: int|
        0 <= k < lines.len() ==> {
            &&& #[trigger] runs[k] == fields_of(lines[k])[0]
            &&& Some(ramps[k]) == parse_u64_spec(fields_of(lines[k])[1])
            &&& Some(vpeds[k]) == parse_isize_spec(fields_of(lines[k])[2])
        }
}

/// The views of a sequence of strings.
pub open spec fn string_views(v: Seq<String>) -> Seq<Seq<char>> {
    v.map_values(|s: String| s@)
}

/// `e` is the error that parsing `lines` as data lines gives: no line at
/// all, or the first line that is not a record.
pub open spec fn parse_error(lines: Seq<Seq<char>>, e: LogError) -> bool {
    match e {
        LogError::EmptyInput => lines.len() == 0,
        LogError::MalformedRecord { index, line } => {
            &&& first_bad(lines, index as int)
            &&& !well_shaped(lines[index as int])
            &&& line@ == lines[index as int]
        },
        LogError::InvalidNumber { index, line } => {
            &&& first_bad(lines, index as int)
            &&& well_shaped(lines[index as int])
            &&& line@ == lines[index as int]
        },
        LogError::GroupOverrun { .. } => false,
    }
}

/// `lines` parse without error into these three sequences.
pub open spec fn parse_ok(
    lines: Seq<Seq<char>>,
    ramps: Seq<u64>,
    runs: Seq<Seq<char>>,
    vpeds: Seq<isize>,
) -> bool {
    &&& lines.len() > 0
    &&& forall|k: int| 0 <= k < lines.len() ==> record_ok(#[trigger] lines[k])
    &&& parsed_as(lines, ramps, runs, vpeds)
}

/// What parsing `lines` as data lines gives: the three sequences when every
/// line is a record and there is at least one, else the error for the first
/// line that is not.
pub open spec fn parse_outcome(
    lines: Seq<Seq<char>>,
    r: Result<(Vec<u64>, Vec<String>, Vec<isize>), LogError>,
) -> bool {
    match r {
        Ok((ramps, runs, vpeds)) => parse_ok(lines, ramps@, string_views(runs@), vpeds@),
        Err(e) => parse_error(lines, e),
    }
}

/// Parses data lines, already split, into ramp ids, run ids and vpeds.
fn parse_chars(text: &Vec<char>) -> (r: Result<(Vec<u64>, Vec<String>, Vec<isize>), LogError>)
    ensures
        parse_outcome(lines_of(text@), r),
{
    let ghost ls = lines_of(text@);
    let lines = split_lines(text);
    if lines.len() == 0 {
        return Err(LogError::EmptyInput);
    }
    let mut ramps: Vec<u64> = Vec::new();
    let mut runs: Vec<String> = Vec::new();
    let mut vpeds: Vec<isize> = Vec::new();
    let mut i: usize = 0;
    while i < lines.len()
        invariant
            ls == lines_of(text@),
            lines@.len() == ls.len() > 0,
            forall|k: int| 0 <= k < ls.len() ==> #[trigger] lines@[k]@ == ls[k],
            i <= ls.len(),
            forall|k: int| 0 <= k < i ==> record_ok(#[trigger] ls[k]),
            parsed_as(ls.take(i as int), ramps@, string_views(runs@), vpeds@),
        decreases ls.len() - i,
    {
        let fields = split_chars(&lines[i], ',');
        assert(lines@[i as int]@ == ls[i as int]);
        if fields.len() != 3 {
            let line = string_of(&lines[i]);
            return Err(LogError::MalformedRecord { index: i, line });
        }
        let ramp = parse_u64(&fields[1]);
        let vped = parse_isize(&fields[2]);
        match (ramp, vped) {
            (Some(ramp), Some(vped)) => {
                let ghost old_runs = string_views(runs@);
                let ghost old_ramps = ramps@;
                let ghost old_vpeds = vpeds@;
                ramps.push(ramp);
                runs.push(string_of(&fields[0]));
                vpeds.push(vped);
                let ghost t = ls.take(i + 1);
                assert forall|k: int| 0 <= k < t.len() implies {
                    &&& #[trigger] string_views(runs@)[k] == fields_of(t[k])[0]
                    &&& Some(ramps@[k]) == parse_u64_spec(fields_of(t[k])[1])
                    &&& Some(vpeds@[k]) == parse_isize_spec(fields_of(t[k])[2])
                } by {
                    assert(t[k] == ls[k]);
                    assert(string_views(runs@)[k] == runs@[k]@);
                    if k < i {
                        assert(ls.take(i as int)[k] == ls[k]);
                        assert(old_runs[k] == runs@[k]@);
                        assert(old_ramps[k] == ramps@[k]);
                        assert(old_vpeds[k] == vpeds@[k]);
                    }
                }
                i = i + 1;
            },
            _ => {
                return Err(LogError::InvalidNumber { index: i, line: string_of(&lines[i]) });
            },
        }
    }
    assert(ls.take(ls.len() as int) == ls);
    Ok((ramps, runs, vpeds))
}

/// Parses the data lines of a log (its header already removed) into ramp ids,
/// run ids and vpeds, in file order, one of each per line.
pub fn parse_log(contents: &String) -> (r: Result<(Vec<u64>, Vec<String>, Vec<isize>), LogError>)
    ensures
        parse_outcome(lines_of(contents@), r),
{
    let text = chars_of(contents.as_str());
    parse_chars(&text)
}

/// `s` with each run of equal adjacent values collapsed to one.
pub open spec fn dedup_spec(s: Seq<u64>) -> Seq<u64>
    decreases s.len(),
{
    if s.len() <= 1 {
        s
    } else if s.last() == s[s.len() - 2] {
        dedup_spec(s.drop_last())
    } else {
        dedup_spec(s.drop_last()).push(s.last())
    }
}

/// Collapses each run of equal adjacent ramp ids to one; values that recur
/// after another value stay.
pub fn dedup_ramps(ramps: &Vec<u64>) -> (r: Vec<u64>)
    ensures
        r@ == dedup_spec(ramps@),
{
    let mut r: Vec<u64> = Vec::new();
    let mut i: usize = 0;
    while i < ramps.len()
        invariant
            i <= ramps@.len(),
            r@ == dedup_spec(ramps@.take(i as int)),
            i > 0 ==> r@.len() > 0 && r@.last() == ramps@[i - 1],
        decreases ramps@.len() - i,
    {
        let ghost t = ramps@.take(i + 1);
        assert(t.drop_last() == ramps@.take(i as int));
        if i == 0 || ramps[i] != ramps[i - 1] {
            r.push(ramps[i]);
        }
        proof {
            if i > 0 {
                assert(t[t.len() - 2] == ramps@[i - 1]);
            }
            lemma_dedup_last(t);
        }
        i = i + 1;
    }
    assert(ramps@.take(ramps@.len() as int) == ramps@);
    r
}

/// A non-empty sequence keeps its last value through `dedup_spec`.
proof fn lemma_dedup_last(s: Seq<u64>)
    requires
        s.len() > 0,
    ensures
        dedup_spec(s).len() > 0,
        dedup_spec(s).last() == s.last(),
    decreases s.len(),
{
    if s.len() > 1 && s.last() == s[s.len() - 2] {
        lemma_dedup_last(s.drop_last());
    }
}

/// Whether a calibration group goes on past run `i`: the vped rises into the
/// next run; the last run always counts as going on.
pub open spec fn mask_spec(vpeds: Seq<isize>) -> Seq<bool> {
    Seq::new(vpeds.len(), |i: int| i == vpeds.len() - 1 || vpeds[i + 1] > vpeds[i])
}

/// How many entries of `m` are `false`.
pub open spec fn count_false(m: Seq<bool>) -> nat
    decreases m.len(),
{
    if m.len() == 0 {
        0
    } else {
        count_false(m.drop_last()) + if m.last() {
            0nat
        } else {
            1nat
        }
    }
}

/// The transition mask of `vpeds`: `true` at run `i` when the next vped is
/// greater, `false` where a calibration group ends, and `true` at the last run.
pub fn transition_mask(vpeds: &Vec<isize>) -> (mask: Vec<bool>)
    ensures
        mask@ == mask_spec(vpeds@),
        mask@.len() == vpeds@.len(),
        vpeds@.len() > 0 ==> mask@.last(),
{
    let mut mask: Vec<bool> = Vec::new();
    let n = vpeds.len();
    if n == 0 {
        assert(mask@ == mask_spec(vpeds@));
        return mask;
    }
    let mut i: usize = 0;
    while i + 1 < n
        invariant
            n == vpeds@.len() > 0,
            i < n,
            mask@ == mask_spec(vpeds@).take(i as int),
        decreases n - i,
    {
        mask.push(vpeds[i + 1] > vpeds[i]);
        assert(mask@ == mask_spec(vpeds@).take(i + 1));
        i = i + 1;
    }
    mask.push(true);
    assert(mask@ == mask_spec(vpeds@));
    mask
}

/// Line `i` of `s` is its first line break.
pub open spec fn first_break(s: Seq<char>, i: int) -> bool {
    &&& 0 <= i < s.len()
    &&& s[i] == '\n'
    &&& forall|j: int| 0 <= j < i ==> s[j] != '\n'
}

/// What follows the header line of `s`; `None` when `s` has no line break.
pub open spec fn after_header(s: Seq<char>) -> Option<Seq<char>> {
    if exists|i: int| first_break(s, i) {
        Some(s.skip((choose|i: int| first_break(s, i)) + 1))
    } else {
        None
    }
}

/// A log read into tables: ramp ids with adjacent repeats collapsed, and the
/// run ids, vpeds and transition mask, one per data line.
#[derive(Debug)]
pub struct LogTables {
    pub ramps: Vec<u64>,
    pub runs: Vec<String>,
    pub vpeds: Vec<isize>,
    pub mask: Vec<bool>,
}

/// The data lines of the log text `contents`: its lines after the header.
pub open spec fn data_lines(contents: Seq<char>) -> Seq<Seq<char>> {
    lines_of(after_header(contents)->0)
}

/// The log text `contents` has a header and at least one data line, and each
/// data line is a record.
pub open spec fn log_ok(contents: Seq<char>) -> bool {
    &&& after_header(contents) is Some
    &&& data_lines(contents).len() > 0
    &&& forall|k: int|
        0 <= k < data_lines(contents).len() ==> record_ok(#[trigger] data_lines(contents)[k])
}

/// The run ids of the records `lines`.
pub open spec fn run_ids(lines: Seq<Seq<char>>) -> Seq<Seq<char>> {
    lines.map_values(|l: Seq<char>| fields_of(l)[0])
}

/// The ramp ids of the records `lines`.
pub open spec fn ramp_ids(lines: Seq<Seq<char>>) -> Seq<u64> {
    lines.map_values(|l: Seq<char>| parse_u64_spec(fields_of(l)[1])->0)
}

/// The vpeds of the records `lines`.
pub open spec fn vped_values(lines: Seq<Seq<char>>) -> Seq<isize> {
    lines.map_values(|l: Seq<char>| parse_isize_spec(fields_of(l)[2])->0)
}

/// `t` holds what the log text `contents` gives.
pub open spec fn tables_of(contents: Seq<char>, t: LogTables) -> bool {
    &&& log_ok(contents)
    &&& string_views(t.runs@) == run_ids(data_lines(contents))
    &&& t.vpeds@ == vped_values(data_lines(contents))
    &&& t.ramps@ == dedup_spec(ramp_ids(data_lines(contents)))
    &&& t.mask@ == mask_spec(t.vpeds@)
}

/// `e` is the error that reading the log text `contents` gives.
pub open spec fn read_error(contents: Seq<char>, e: LogError) -> bool {
    match after_header(contents) {
        None => e == LogError::EmptyInput,
        Some(body) => parse_error(lines_of(body), e),
    }
}

/// Removes the header line of a log, parses its data lines, collapses repeated
/// ramp ids and computes the transition mask.
pub fn read_log(contents: &String) -> (r: Result<LogTables, LogError>)
    ensures
        match r {
            Ok(t) => tables_of(contents@, t),
            Err(e) => read_error(contents@, e),
        },
{
    let text = chars_of(contents.as_str());
    let n = text.len();
    let mut i: usize = 0;
    while i < n && text[i] != '\n'
        invariant
            n == text@.len(),
            i <= n,
            forall|j: int| 0 <= j < i ==> text@[j] != '\n',
        decreases n - i,
    {
        i = i + 1;
    }
    if i == n {
        assert(!exists|k: int| first_break(text@, k));
        return Err(LogError::EmptyInput);
    }
    assert(first_break(text@, i as int));
    proof {
        let c = choose|k: int| first_break(text@, k);
        assert(c == i) by {
            if c < i {
                assert(text@[c] == '\n');
            } else if c > i {
                assert(text@[i as int] == '\n');
            }
        }
    }
    let mut body: Vec<char> = Vec::new();
    let mut k: usize = i + 1;
    while k < n
        invariant
            n == text@.len(),
            i < k <= n,
            body@ == text@.subrange(i + 1, k as int),
        decreases n - k,
    {
        body.push(text[k]);
        k = k + 1;
    }
    assert(body@ == text@.skip(i + 1));
    match parse_chars(&body) {
        Ok((raw, runs, vpeds)) => {
            let ghost ls = lines_of(body@);
            assert forall|k: int| #![trigger ls[k]] 0 <= k < ls.len() implies raw@[k] == ramp_ids(ls)[k]
                && vpeds@[k] == vped_values(ls)[k] by {
                assert(string_views(runs@)[k] == fields_of(ls[k])[0]);
                assert(Some(raw@[k]) == parse_u64_spec(fields_of(ls[k])[1]));
                assert(Some(vpeds@[k]) == parse_isize_spec(fields_of(ls[k])[2]));
            }
            assert(raw@ =~= ramp_ids(ls));
            assert(vpeds@ =~= vped_values(ls));
            assert(string_views(runs@) =~= run_ids(ls));
            let ramps = dedup_ramps(&raw);
            let mask = transition_mask(&vpeds);
            Ok(LogTables { ramps, runs, vpeds, mask })
        },
        Err(e) => Err(e),
    }
}

} // verus!
