use process_log::log::{dedup_ramps, parse_log, read_log, transition_mask, LogError};
use process_log::number::{parse_isize, parse_u64};
use process_log::output::{cal_file, cal_list_text, get_file_header, plan_outputs, tf_files};
use process_log::text::{chars_of, split_chars, split_lines, string_of};

const DIR: &str = "/data/wipac/CTA/target5and7data/runs_320000_through_329999";

fn strings(v: &[&str]) -> Vec<String> {
    v.iter().map(|s| s.to_string()).collect()
}

#[test]
fn test_parse_log() {
    let contents = String::from("300000,0,123\n300001,1,124");
    let (ramps, runs, vpeds) = parse_log(&contents).unwrap();
    assert_eq!(ramps.len(), 2);
    assert_eq!(runs.len(), 2);
    assert_eq!(vpeds.len(), 2);
    assert_eq!(runs[0], "300000");
    assert_eq!(ramps[0], 0u64);
    assert_eq!(vpeds[0], 123isize);
}

#[test]
fn parse_log_keeps_every_record_in_order() {
    let contents = String::from("300000,0,123\n300001,1,124");
    let (ramps, runs, vpeds) = parse_log(&contents).unwrap();
    assert_eq!(runs, vec!["300000".to_string(), "300001".to_string()]);
    assert_eq!(ramps, vec![0u64, 1]);
    assert_eq!(vpeds, vec![123isize, 124]);
}

#[test]
fn parse_log_handles_crlf_and_final_newline() {
    let contents = String::from("a,1,-5\r\nb,2,+7\r\n");
    let (ramps, runs, vpeds) = parse_log(&contents).unwrap();
    assert_eq!(runs, strings(&["a", "b"]));
    assert_eq!(ramps, vec![1u64, 2]);
    assert_eq!(vpeds, vec![-5isize, 7]);
}

#[test]
fn parse_log_empty_text_is_empty_input() {
    assert_eq!(parse_log(&String::new()), Err(LogError::EmptyInput));
    assert_eq!(parse_log(&String::from("\n")).unwrap_err(), LogError::MalformedRecord {
        index: 0,
        line: String::new(),
    });
}

#[test]
fn parse_log_reports_first_bad_line() {
    let contents = String::from("r0,1,1\nr1,abc,1\nr2\n");
    assert_eq!(parse_log(&contents), Err(LogError::InvalidNumber {
        index: 1,
        line: "r1,abc,1".to_string(),
    }));
    let contents = String::from("r0,1,1\nr1,2\nr2,x,1\n");
    assert_eq!(parse_log(&contents), Err(LogError::MalformedRecord {
        index: 1,
        line: "r1,2".to_string(),
    }));
    let contents = String::from("r0,1,1,9\n");
    assert_eq!(parse_log(&contents), Err(LogError::MalformedRecord {
        index: 0,
        line: "r0,1,1,9".to_string(),
    }));
}

#[test]
fn parse_log_rejects_out_of_range_numbers() {
    let contents = String::from("r,18446744073709551616,1\n");
    assert!(matches!(parse_log(&contents), Err(LogError::InvalidNumber { index: 0, .. })));
    let contents = String::from("r,-1,1\n");
    assert!(matches!(parse_log(&contents), Err(LogError::InvalidNumber { index: 0, .. })));
    let contents = String::from("r,1, 1\n");
    assert!(matches!(parse_log(&contents), Err(LogError::InvalidNumber { index: 0, .. })));
}

#[test]
fn number_parsing_follows_std() {
    let cases = ["0", "+12", "-12", "007", "", "+", "-", "1a", "18446744073709551615",
        "18446744073709551616", "9223372036854775807", "9223372036854775808",
        "-9223372036854775808", "-9223372036854775809"];
    for c in cases.iter() {
        let v: Vec<char> = c.chars().collect();
        assert_eq!(parse_u64(&v), c.parse::<u64>().ok(), "u64 {}", c);
        assert_eq!(parse_isize(&v), c.parse::<isize>().ok(), "isize {}", c);
    }
}

#[test]
fn dedup_collapses_adjacent_repeats_only() {
    assert_eq!(dedup_ramps(&vec![5, 5, 5, 3, 3, 5]), vec![5, 3, 5]);
    assert_eq!(dedup_ramps(&vec![]), Vec::<u64>::new());
    assert_eq!(dedup_ramps(&vec![7]), vec![7]);
    assert_eq!(dedup_ramps(&vec![5, 5, 3, 5]), vec![5, 3, 5]);
}

#[test]
fn mask_marks_drops_and_ends_true() {
    assert_eq!(transition_mask(&vec![100, 105, 90, 90]), vec![true, false, false, true]);
    assert_eq!(transition_mask(&vec![100, 105, 90]), vec![true, false, true]);
    assert_eq!(transition_mask(&vec![4]), vec![true]);
    assert_eq!(transition_mask(&vec![]), Vec::<bool>::new());
}

#[test]
fn mask_length_and_last_entry() {
    let inputs: Vec<Vec<isize>> = vec![vec![1], vec![3, 2, 1], vec![1, 2, 3, 4], vec![9, 9, 9, 9, 9]];
    for v in inputs.iter() {
        let m = transition_mask(v);
        assert_eq!(m.len(), v.len());
        assert_eq!(*m.last().unwrap(), true);
    }
}

#[test]
fn mask_handles_extreme_values() {
    assert_eq!(transition_mask(&vec![isize::MIN, isize::MAX, isize::MIN]), vec![true, false, true]);
}

#[test]
fn file_header_strips_directory_and_final_extension() {
    assert_eq!(get_file_header("/home/lab/logs/ramp-2022.log"), "ramp-2022");
    assert_eq!(get_file_header("run.a.txt"), "run.a");
    assert_eq!(get_file_header("plain"), "plain");
    assert_eq!(get_file_header("dir/.hidden"), "");
    assert_eq!(get_file_header(".x"), "");
    assert_eq!(get_file_header("dir/"), "");
}

#[test]
fn cal_list_is_one_path_per_run() {
    let runs = strings(&["320001", "320002"]);
    let expected = format!("{}/cal320001.r1\n{}/cal320002.r1", DIR, DIR);
    assert_eq!(cal_list_text(&runs), expected);
    assert_eq!(cal_list_text(&Vec::new()), "");
    let f = cal_file(&runs, "day");
    assert_eq!(f.name, "day-cal-list.txt");
    assert_eq!(f.contents, expected);
}

#[test]
fn tf_files_groups_by_false_entries() {
    let runs = strings(&["a", "b", "c", "d"]);
    let vpeds: Vec<isize> = vec![10, -3, 5, 6];
    let mask = transition_mask(&vpeds);
    let files = tf_files(&vec![7, 8], &runs, &vpeds, &mask, "log").unwrap();
    assert_eq!(files.len(), 1);
    assert_eq!(files[0].name, "log-ramp-7-tf-dac-list.txt");
    assert_eq!(files[0].contents, format!("{}/cala.r1 10", DIR));
}

#[test]
fn tf_files_overrun_names_the_run() {
    let runs = strings(&["a", "b", "c"]);
    let vpeds: Vec<isize> = vec![5, 4, 3];
    let mask = transition_mask(&vpeds);
    assert_eq!(mask, vec![false, false, true]);
    let r = tf_files(&vec![1], &runs, &vpeds, &mask, "log");
    assert!(matches!(r, Err(LogError::GroupOverrun { index: 1 })));
}

#[test]
fn end_to_end_three_rows() {
    let contents = String::from("run,ramp,vped\nr1,10,1\nr2,10,2\nr3,20,1");
    let t = read_log(&contents).unwrap();
    assert_eq!(t.ramps, vec![10, 20]);
    assert_eq!(t.mask, vec![true, false, true]);
    let files = plan_outputs("data/lab.log", &contents).unwrap();
    assert_eq!(files.len(), 2);
    assert_eq!(files[0].name, "lab-cal-list.txt");
    assert_eq!(
        files[0].contents,
        format!("{}/calr1.r1\n{}/calr2.r1\n{}/calr3.r1", DIR, DIR, DIR)
    );
    assert_eq!(files[1].name, "lab-ramp-10-tf-dac-list.txt");
    assert_eq!(files[1].contents, format!("{}/calr1.r1 1\n{}/calr2.r1 2", DIR, DIR));
}

#[test]
fn end_to_end_rising_vpeds_give_no_tf_list() {
    let contents = String::from("run,ramp,vped\nr1,10,1\nr2,20,2");
    let files = plan_outputs("lab.log", &contents).unwrap();
    assert_eq!(files.len(), 1);
    assert_eq!(files[0].name, "lab-cal-list.txt");
}

#[test]
fn end_to_end_negative_vpeds_and_several_groups() {
    let contents = String::from("h\na,1,0\nb,1,-2\nc,2,-1\nd,2,-9\ne,3,0\n");
    let files = plan_outputs("x.csv", &contents).unwrap();
    assert_eq!(files.len(), 3);
    assert_eq!(files[1].name, "x-ramp-1-tf-dac-list.txt");
    assert_eq!(files[1].contents, format!("{}/cala.r1 0", DIR));
    assert_eq!(files[2].name, "x-ramp-2-tf-dac-list.txt");
    assert_eq!(files[2].contents, format!("{}/calb.r1 -2\n{}/calc.r1 -1", DIR, DIR));
}

#[test]
fn header_only_is_empty_input() {
    assert!(matches!(plan_outputs("a.log", &String::from("run,ramp,vped\n")), Err(LogError::EmptyInput)));
    assert!(matches!(plan_outputs("a.log", &String::from("run,ramp,vped")), Err(LogError::EmptyInput)));
    assert!(matches!(plan_outputs("a.log", &String::new()), Err(LogError::EmptyInput)));
}

#[test]
fn malformed_number_is_invalid_number() {
    let r = plan_outputs("a.log", &String::from("run,ramp,vped\nr1,abc,1"));
    assert_eq!(
        r.unwrap_err(),
        LogError::InvalidNumber { index: 0, line: "r1,abc,1".to_string() }
    );
}

#[test]
fn overrun_is_reported_before_any_output() {
    let r = plan_outputs("a.log", &String::from("h\na,1,5\nb,1,4\nc,1,3"));
    assert_eq!(r.unwrap_err(), LogError::GroupOverrun { index: 1 });
}

#[test]
fn text_helpers_split_and_rebuild() {
    let v = chars_of("x,,y");
    assert_eq!(v, vec!['x', ',', ',', 'y']);
    let parts = split_chars(&v, ',');
    assert_eq!(parts, vec![vec!['x'], vec![], vec!['y']]);
    assert_eq!(string_of(&v), "x,,y");
    let lines = split_lines(&chars_of("a\r\n\nb\r"));
    assert_eq!(lines, vec![vec!['a'], vec![], vec!['b', '\r']]);
}
