use vstd::prelude::*;

use crate::log::{
    count_false, data_lines, dedup_spec, log_ok, mask_spec, ramp_ids, read_error, read_log,
    run_ids, string_views, vped_values, LogError,
};
use crate::text::chars_of;
use crate::number::{decimal, push_decimal, push_signed_decimal, signed_decimal};
use crate::text::{join_lines, push_char};

verus! {

/// Where the calibration file of a run lives, up to the run id.
pub const CAL_PREFIX: &'static str = "/data/wipac/CTA/target5and7data/runs_320000_through_329999/cal";

/// The calibration file of a run: `<CAL_PREFIX><run>.r1`.
pub open spec fn cal_path(run: Seq<char>) -> Seq<char> {
    CAL_PREFIX@ + run + ".r1"@
}

/// The calibration file list: one path per run, joined by line breaks.
pub open spec fn cal_text(runs: Seq<Seq<char>>) -> Seq<char> {
    join_lines(runs.map_values(|r: Seq<char>| cal_path(r)))
}

/// One line of a transfer-function list: the calibration file and the vped.
pub open spec fn tf_line(run: Seq<char>, vped: isize) -> Seq<char> {
    cal_path(run) + seq![' '] + signed_decimal(vped as int)
}

/// A named text to be written out.
#[derive(Debug)]
pub struct OutputFile {
    pub name: String,
    pub contents: String,
}

/// Appends the calibration file of `run` to `s`.
fn push_cal_path(s: &mut String, run: &String)
    ensures
        final(s)@ == old(s)@ + cal_path(run@),
{
    s.append(CAL_PREFIX);
    s.append(run.as_str());
    s.append(".r1");
}

/// The calibration file list of `runs`.
pub fn cal_list_text(runs: &Vec<String>) -> (r: String)
    ensures
        r@ == cal_text(string_views(runs@)),
{
    let ghost paths = string_views(runs@).map_values(|r: Seq<char>| cal_path(r));
    let mut out = String::new();
    let mut i: usize = 0;
    while i < runs.len()
        invariant
            i <= runs@.len(),
            paths == string_views(runs@).map_values(|r: Seq<char>| cal_path(r)),
            out@ == join_lines(paths.take(i as int)),
        decreases runs@.len() - i,
    {
        if i > 0 {
            push_char(&mut out, '\n');
        }
        push_cal_path(&mut out, &runs[i]);
        let ghost t = paths.take(i + 1);
        assert(t.drop_last() == paths.take(i as int));
        assert(t.last() == cal_path(runs@[i as int]@));
        assert(i == 0 ==> t == seq![t.last()]);
        i = i + 1;
    }
    assert(paths.take(runs@.len() as int) == paths);
    out
}

/// The name of the calibration file list for logs named `header`.
pub open spec fn cal_file_name(header: Seq<char>) -> Seq<char> {
    header + "-cal-list.txt"@
}

/// The name of the transfer-function list of ramp `ramp` for logs named `header`.
pub open spec fn tf_file_name(header: Seq<char>, ramp: u64) -> Seq<char> {
    header + "-ramp-"@ + decimal(ramp as nat) + "-tf-dac-list.txt"@
}

/// The lines of the calibration group still open after the first `i` runs.
pub open spec fn pending_lines(
    runs: Seq<Seq<char>>,
    vpeds: Seq<isize>,
    mask: Seq<bool>,
    i: nat,
) -> Seq<Seq<char>>
    decreases i,
{
    if i == 0 {
        Seq::<Seq<char>>::empty()
    } else if mask[i - 1] {
        pending_lines(runs, vpeds, mask, (i - 1) as nat).push(tf_line(runs[i - 1], vpeds[i - 1]))
    } else {
        Seq::<Seq<char>>::empty()
    }
}

/// The texts of the calibration groups that the first `i` runs close, in order:
/// a group is closed by each run whose mask entry is `false`.
pub open spec fn closed_groups(
    runs: Seq<Seq<char>>,
    vpeds: Seq<isize>,
    mask: Seq<bool>,
    i: nat,
) -> Seq<Seq<char>>
    decreases i,
{
    if i == 0 {
        Seq::<Seq<char>>::empty()
    } else if mask[i - 1] {
        closed_groups(runs, vpeds, mask, (i - 1) as nat)
    } else {
        closed_groups(runs, vpeds, mask, (i - 1) as nat).push(
            join_lines(
                pending_lines(runs, vpeds, mask, (i - 1) as nat).push(
                    tf_line(runs[i - 1], vpeds[i - 1]),
                ),
            ),
        )
    }
}

/// As many groups are closed as there are `false` entries in the mask.
pub proof fn lemma_closed_groups_len(
    runs: Seq<Seq<char>>,
    vpeds: Seq<isize>,
    mask: Seq<bool>,
    i: nat,
)
    requires
        i <= mask.len(),
    ensures
        closed_groups(runs, vpeds, mask, i).len() == count_false(mask.take(i as int)),
    decreases i,
{
    if i > 0 {
        lemma_closed_groups_len(runs, vpeds, mask, (i - 1) as nat);
        assert(mask.take(i as int).drop_last() == mask.take(i - 1));
    }
}

/// A prefix has no more `false` entries than the whole.
pub proof fn lemma_count_false_prefix(m: Seq<bool>, j: int)
    requires
        0 <= j <= m.len(),
    ensures
        count_false(m.take(j)) <= count_false(m),
    decreases m.len(),
{
    if j < m.len() {
        assert(m.drop_last().take(j) == m.take(j));
        lemma_count_false_prefix(m.drop_last(), j);
    } else {
        assert(m.take(j) == m);
    }
}

/// The name `<header>-ramp-<ramp>-tf-dac-list.txt`.
fn tf_name(header: &str, ramp: u64) -> (r: String)
    ensures
        r@ == tf_file_name(header@, ramp),
{
    let mut r = String::new();
    r.append(header);
    r.append("-ramp-");
    push_decimal(&mut r, ramp);
    r.append("-tf-dac-list.txt");
    r
}

/// The calibration file list for `runs`, named after `file_header`.
pub fn cal_file(runs: &Vec<String>, file_header: &str) -> (f: OutputFile)
    ensures
        f.name@ == cal_file_name(file_header@),
        f.contents@ == cal_text(string_views(runs@)),
{
    let mut name = String::new();
    name.append(file_header);
    name.append("-cal-list.txt");
    OutputFile { name, contents: cal_list_text(runs) }
}

/// The transfer-function lists: one per calibration group that a `false`
/// mask entry closes, named after the next ramp id in `ramps`. The runs after
/// the last closed group go into no list. Fails with `GroupOverrun` when the
/// mask closes more groups than `ramps` has ids.
pub fn tf_files(
    ramps: &Vec<u64>,
    runs: &Vec<String>,
    vpeds: &Vec<isize>,
    mask: &Vec<bool>,
    file_header: &str,
) -> (r: Result<Vec<OutputFile>, LogError>)
    requires
        runs@.len() == vpeds@.len(),
        mask@.len() == vpeds@.len(),
    ensures
        match r {
            Ok(files) => {
                &&& count_false(mask@) <= ramps@.len()
                &&& files@.len() == count_false(mask@)
                &&& forall|k: int|
                    0 <= k < files@.len() ==> {
                        &&& (#[trigger] files@[k]).name@ == tf_file_name(file_header@, ramps@[k])
                        &&& files@[k].contents@ == closed_groups(
                            string_views(runs@),
                            vpeds@,
                            mask@,
                            mask@.len(),
                        )[k]
                    }
            },
            Err(LogError::GroupOverrun { index }) => {
                &&& count_false(mask@) > ramps@.len()
                &&& index < mask@.len()
                &&& !mask@[index as int]
                &&& count_false(mask@.take(index as int)) == ramps@.len()
            },
            Err(_) => false,
        },
{
    let ghost rs = string_views(runs@);
    let n = runs.len();
    let mut files: Vec<OutputFile> = Vec::new();
    let mut buf = String::new();
    let mut npending: usize = 0;
    let mut i: usize = 0;
    while i < n
        invariant
            n == runs@.len() == vpeds@.len() == mask@.len(),
            rs == string_views(runs@),
            i <= n,
            files@.len() == count_false(mask@.take(i as int)),
            files@.len() <= ramps@.len(),
            closed_groups(rs, vpeds@, mask@, i as nat).len() == files@.len(),
            forall|k: int|
                0 <= k < files@.len() ==> {
                    &&& (#[trigger] files@[k]).name@ == tf_file_name(file_header@, ramps@[k])
                    &&& files@[k].contents@ == closed_groups(rs, vpeds@, mask@, i as nat)[k]
                },
            buf@ == join_lines(pending_lines(rs, vpeds@, mask@, i as nat)),
            npending == pending_lines(rs, vpeds@, mask@, i as nat).len(),
            npending <= i,
        decreases n - i,
    {
        let ghost pend = pending_lines(rs, vpeds@, mask@, i as nat);
        let ghost line = tf_line(rs[i as int], vpeds@[i as int]);
        let ghost grown = pend.push(line);
        assert(grown.drop_last() == pend);
        assert(npending == 0 ==> grown == seq![line]);
        assert(rs[i as int] == runs@[i as int]@);
        if npending > 0 {
            push_char(&mut buf, '\n');
        }
        push_cal_path(&mut buf, &runs[i]);
        push_char(&mut buf, ' ');
        push_signed_decimal(&mut buf, vpeds[i]);
        assert(buf@ == join_lines(grown));
        assert(mask@.take(i + 1).drop_last() == mask@.take(i as int));
        if !mask[i] {
            if files.len() == ramps.len() {
                proof {
                    lemma_count_false_prefix(mask@, i + 1);
                }
                return Err(LogError::GroupOverrun { index: i });
            }
            let name = tf_name(file_header, ramps[files.len()]);
            let ghost before = files@;
            files.push(OutputFile { name, contents: buf });
            buf = String::new();
            npending = 0;
            assert forall|k: int| 0 <= k < files@.len() implies {
                &&& (#[trigger] files@[k]).name@ == tf_file_name(file_header@, ramps@[k])
                &&& files@[k].contents@ == closed_groups(rs, vpeds@, mask@, (i + 1) as nat)[k]
            } by {
                if k < before.len() {
                    assert(files@[k] == before[k]);
                }
            }
        } else {
            npending = npending + 1;
        }
        i = i + 1;
    }
    assert(mask@.take(n as int) == mask@);
    Ok(files)
}

/// The position of the last `c` in `s`, or -1 when there is none.
pub open spec fn last_index_of(s: Seq<char>, c: char) -> int
    decreases s.len(),
{
    if s.len() == 0 {
        -1
    } else if s.last() == c {
        s.len() - 1
    } else {
        last_index_of(s.drop_last(), c)
    }
}

/// The file name that ends the path `path`: what follows its last `/`.
pub open spec fn base_name(path: Seq<char>) -> Seq<char> {
    path.skip(last_index_of(path, '/') + 1)
}

/// The file name of `path` without its directory and without its final
/// extension: everything from the last `.` on is cut, even a dot that starts
/// the name.
pub open spec fn file_stem(path: Seq<char>) -> Seq<char> {
    let b = base_name(path);
    let d = last_index_of(b, '.');
    if d >= 0 {
        b.take(d)
    } else {
        b
    }
}

/// The position of the last `c` in `s[from..]`, relative to `from`, if any.
fn last_index_from(s: &Vec<char>, from: usize, c: char) -> (r: Option<usize>)
    requires
        from <= s@.len(),
    ensures
        match r {
            Some(d) => d == last_index_of(s@.skip(from as int), c) && from + d < s@.len(),
            None => last_index_of(s@.skip(from as int), c) == -1,
        },
{
    let ghost b = s@.skip(from as int);
    let mut last: Option<usize> = None;
    let mut i: usize = from;
    while i < s.len()
        invariant
            from <= i <= s@.len(),
            b == s@.skip(from as int),
            match last {
                Some(d) => d == last_index_of(b.take(i - from), c) && d < i - from,
                None => last_index_of(b.take(i - from), c) == -1,
            },
        decreases s@.len() - i,
    {
        assert(b.take(i + 1 - from).drop_last() == b.take(i - from));
        if s[i] == c {
            last = Some(i - from);
        }
        i = i + 1;
    }
    assert(b.take(s@.len() - from) == b);
    last
}

/// The name that output files of the log at `filename` start with: the file
/// name without directory and final extension.
pub fn get_file_header(filename: &str) -> (r: &str)
    ensures
        r@ == file_stem(filename@),
{
    let s = chars_of(filename);
    let n = s.len();
    proof {
        assert(s@.skip(0) == s@);
    }
    let start = match last_index_from(&s, 0, '/') {
        Some(d) => {
            assert(d < n);
            d + 1
        },
        None => 0,
    };
    let end = match last_index_from(&s, start, '.') {
        Some(d) => {
            assert(start + d < n);
            start + d
        },
        None => s.len(),
    };
    filename.substring_char(start, end)
}

/// Every output file of the log text `contents` read from `filename`: the
/// calibration file list first, then one transfer-function list per closed
/// calibration group. Nothing is returned unless all of them can be made.
pub fn plan_outputs(filename: &str, contents: &String) -> (r: Result<Vec<OutputFile>, LogError>)
    ensures
        ({
            let ls = data_lines(contents@);
            let ramps = dedup_spec(ramp_ids(ls));
            let mask = mask_spec(vped_values(ls));
            let header = file_stem(filename@);
            match r {
                Ok(files) => {
                    &&& log_ok(contents@)
                    &&& count_false(mask) <= ramps.len()
                    &&& files@.len() == 1 + count_false(mask)
                    &&& files@[0].name@ == cal_file_name(header)
                    &&& files@[0].contents@ == cal_text(run_ids(ls))
                    &&& forall|k: int|
                        1 <= k < files@.len() ==> {
                            &&& (#[trigger] files@[k]).name@ == tf_file_name(header, ramps[k - 1])
                            &&& files@[k].contents@ == closed_groups(
                                run_ids(ls),
                                vped_values(ls),
                                mask,
                                mask.len(),
                            )[k - 1]
                        }
                },
                Err(LogError::GroupOverrun { index }) => {
                    &&& log_ok(contents@)
                    &&& count_false(mask) > ramps.len()
                    &&& index < mask.len()
                    &&& !mask[index as int]
                    &&& count_false(mask.take(index as int)) == ramps.len()
                },
                Err(e) => read_error(contents@, e),
            }
        }),
{
    let header = get_file_header(filename);
    let t = match read_log(contents) {
        Ok(t) => t,
        Err(e) => return Err(e),
    };
    let cal = cal_file(&t.runs, header);
    let tfs = match tf_files(&t.ramps, &t.runs, &t.vpeds, &t.mask, header) {
        Ok(tfs) => tfs,
        Err(e) => return Err(e),
    };
    let mut files: Vec<OutputFile> = Vec::new();
    files.push(cal);
    let mut tfs = tfs;
    let ghost tv = tfs@;
    files.append(&mut tfs);
    assert(files@.len() == 1 + tv.len());
    assert forall|k: int| 1 <= k < files@.len() implies files@[k] == tv[k - 1] by {}
    Ok(files)
}

} // verus!
