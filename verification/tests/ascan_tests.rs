use solo_project::data_base::data_base_ascan::ascan_db::{
    assemble_line_result, collect_source_lists, db_timeout, distinct_query, file_name_of,
    file_names, images_unavailable, img_timeout, is_kpc_place, like_pattern, line_failure,
    missing_variable, no_connection, non_empty_values, raw_wheel_from_cells, secs_or_default,
    timeout_message, wheel_column_count, wheel_lines, wheel_place, wheel_query, Line, LineLists,
    RawWheel,
};
use solo_project::infra::askan::ascan::{missing_filter_message, select_filter};
use solo_project::structures::ascan_struct::{
    DataAscan, DataFilter, LineResult, WheelLineData, WheelPlace,
};
use std::collections::BTreeSet;
use std::path::Path;

fn strings(items: &[&str]) -> Vec<String> {
    items.iter().map(|s| s.to_string()).collect()
}

fn some(s: &str) -> Option<String> {
    Some(s.to_string())
}

#[test]
fn line_names() {
    assert_eq!(Line::One.key(), "line_one");
    assert_eq!(Line::Two.key(), "line_two");
    assert_eq!(Line::Pr6.key(), "pr_6");
    assert_eq!(Line::One.title(), "КПЦ, линия №1");
    assert_eq!(Line::Two.title(), "КПЦ, линия №2");
    assert_eq!(Line::Pr6.title(), "Пролёт №6");
    assert_eq!(Line::One.table_var(), "NAME_TABLE_ONE_LINE");
    assert_eq!(Line::Two.table_var(), "NAME_TABLE_TWO_LINE");
    assert_eq!(Line::Pr6.table_var(), "NAME_TABLE_6PR");
    assert_eq!(Line::One.img_dir_var(), "ASCAN_ONE_LINE_DIR");
    assert_eq!(Line::Two.img_dir_var(), "ASCAN_TWO_LINE_DIR");
    assert_eq!(Line::Pr6.img_dir_var(), "ASCAN_6PR_DIR");
    assert_eq!(Line::One.batch_col(), "DocNumber");
    assert_eq!(Line::Pr6.batch_col(), "Batch_number");
    assert_eq!(Line::Two.malting_col(), "BatchNumber");
    assert_eq!(Line::Pr6.malting_col(), "Treatment_number");
}

#[test]
fn line_keys_are_distinct() {
    let keys: BTreeSet<&str> = [Line::One, Line::Two, Line::Pr6].iter().map(|l| l.key()).collect();
    assert_eq!(keys.len(), 3);
}

#[test]
fn messages() {
    assert_eq!(no_connection(Line::One, "boom"), "КПЦ, линия №1: нет связи (boom)");
    assert_eq!(
        images_unavailable(Line::Pr6, "нет папки"),
        "Пролёт №6: картинки недоступны (нет папки)"
    );
    assert_eq!(missing_variable("NAME_TABLE_6PR"), "не задана переменная NAME_TABLE_6PR");
    assert_eq!(timeout_message(10), "нет ответа за 10 с");
    assert_eq!(timeout_message(0), "нет ответа за 0 с");
    assert_eq!(missing_filter_message(), "Нужно указать batch_number или malting");
}

#[test]
fn time_limits_from_settings() {
    assert_eq!(db_timeout(None), 10);
    assert_eq!(img_timeout(None), 10);
    assert_eq!(db_timeout(Some(" 25 ")), 25);
    assert_eq!(img_timeout(Some("abc")), 10);
    assert_eq!(db_timeout(Some("+3")), 3);
    assert_eq!(db_timeout(Some("-1")), 10);
    assert_eq!(secs_or_default(Some(""), 7), 7);
    assert_eq!(secs_or_default(Some("99999999999999999999"), 7), 7);
}

#[test]
fn time_limits_agree_with_std_parse() {
    for v in ["5", " 5\n", "5s", "", "\u{3000}12\u{3000}", "0"].iter() {
        let expected = v.trim().parse::<u64>().ok().unwrap_or(10);
        assert_eq!(db_timeout(Some(v)), expected, "input {:?}", v);
    }
}

#[test]
fn queries() {
    assert_eq!(distinct_query("DocNumber", "dbo.T1"), "select distinct DocNumber from dbo.T1");
    assert_eq!(
        wheel_query(Line::One, false, "T1"),
        "select WheelHotNumber, BatchNumber, TaskNumber, DATACODE, DATE_AND_TIME, DocNumber from T1 where DocNumber like @P1"
    );
    assert_eq!(
        wheel_query(Line::Two, true, "T2"),
        "select WheelHotNumber, BatchNumber, TaskNumber, DATACODE, DATE_AND_TIME, DocNumber from T2 where BatchNumber like @P1"
    );
    assert_eq!(
        wheel_query(Line::Pr6, true, "T6"),
        "select Barcode, Treatment_number, Path, Batch_number from T6 where Treatment_number like @P1"
    );
    assert_eq!(
        wheel_query(Line::Pr6, false, "T6"),
        "select Barcode, Treatment_number, Path, Batch_number from T6 where Batch_number like @P1"
    );
    assert_eq!(like_pattern("123"), "%123%");
    assert_eq!(wheel_column_count(Line::One), 6);
    assert_eq!(wheel_column_count(Line::Pr6), 4);
}

#[test]
fn file_name_cases() {
    assert_eq!(file_name_of("/usr/bin/"), some("bin"));
    assert_eq!(file_name_of("tmp/foo.txt"), some("foo.txt"));
    assert_eq!(file_name_of("foo.txt/."), some("foo.txt"));
    assert_eq!(file_name_of("foo.txt/.//"), some("foo.txt"));
    assert_eq!(file_name_of("foo.txt/.."), None);
    assert_eq!(file_name_of("/"), None);
    assert_eq!(file_name_of(""), None);
    assert_eq!(file_name_of("."), None);
    assert_eq!(file_name_of("./a"), some("a"));
    assert_eq!(file_name_of("D:\\img\\20250323120740.png"), some("D:\\img\\20250323120740.png"));
}

#[test]
fn file_name_agrees_with_std_path() {
    let samples = [
        "/a/b/c.png", "a//b", "./", "..", "a/../b", "...", "/.", "x/./.", "//srv/share/1.png",
        "20250323120740", "a/b/",
    ];
    for s in samples.iter() {
        let expected = Path::new(s).file_name().and_then(|n| n.to_str()).map(|n| n.to_string());
        assert_eq!(file_name_of(s), expected, "input {:?}", s);
    }
}

#[test]
fn non_empty_values_keeps_order() {
    let cells = vec![some("a"), None, some(""), some("b"), some("a")];
    assert_eq!(non_empty_values(cells), strings(&["a", "b", "a"]));
    assert_eq!(non_empty_values(Vec::new()), Vec::<String>::new());
}

#[test]
fn non_empty_values_trims_and_drops_blanks() {
    let cells = vec![some(" c "), some("  "), some("\td\n"), some(" ")];
    assert_eq!(non_empty_values(cells), strings(&["c", "d"]));
}

#[test]
fn offered_values_are_clean() {
    let one = non_empty_values(vec![some(" B1"), some(""), some("B2 ")]);
    let two = non_empty_values(vec![some("B2"), None, some("\u{3000}")]);
    let r = collect_source_lists(
        Ok(LineLists { batches: one, maltings: Vec::new() }),
        Ok(LineLists { batches: two, maltings: Vec::new() }),
        Err("x".to_string()),
    );
    assert_eq!(r.batch_number_kpc, strings(&["B1", "B2"]));
    for v in r.batch_number_kpc.iter() {
        assert!(!v.is_empty() && v == v.trim());
    }
}

fn lists(b: &[&str], m: &[&str]) -> Result<LineLists, String> {
    Ok(LineLists { batches: strings(b), maltings: strings(m) })
}

#[test]
fn source_lists_all_lines_answer() {
    let r: DataAscan = collect_source_lists(
        lists(&["B2", "B1"], &["M1"]),
        lists(&["B1", "B3"], &["M2", "M1"]),
        lists(&["P2", "P1", "P2"], &[]),
    );
    assert_eq!(r.batch_number_kpc, strings(&["B1", "B2", "B3"]));
    assert_eq!(r.malting_for_kpc, strings(&["M1", "M2"]));
    assert_eq!(r.batch_number_6pr, strings(&["P1", "P2"]));
    assert_eq!(r.malting_for_6pr, Vec::<String>::new());
    assert!(r.errors.is_empty());
}

#[test]
fn source_lists_failed_lines_are_reported() {
    let r = collect_source_lists(
        lists(&["B1"], &["M1"]),
        Err("timeout".to_string()),
        Err("login failed".to_string()),
    );
    assert_eq!(r.batch_number_kpc, strings(&["B1"]));
    assert_eq!(r.malting_for_kpc, strings(&["M1"]));
    assert!(r.batch_number_6pr.is_empty());
    assert!(r.malting_for_6pr.is_empty());
    assert_eq!(
        r.errors,
        vec![
            ("line_two".to_string(), "КПЦ, линия №2: нет связи (timeout)".to_string()),
            ("pr_6".to_string(), "Пролёт №6: нет связи (login failed)".to_string()),
        ]
    );
}

#[test]
fn source_lists_all_lines_fail() {
    let r = collect_source_lists(Err("a".into()), Err("b".into()), Err("c".into()));
    let keys: Vec<&str> = r.errors.iter().map(|e| e.0.as_str()).collect();
    assert_eq!(keys, vec!["line_one", "line_two", "pr_6"]);
    assert!(r.batch_number_kpc.is_empty() && r.malting_for_kpc.is_empty());
}

#[test]
fn source_lists_match_btreeset() {
    let one = ["10", "9", "Б-1", "A", "a"];
    let two = ["A", "Ж", "100"];
    let r = collect_source_lists(lists(&one, &[]), lists(&two, &[]), lists(&[], &[]));
    let expected: Vec<String> =
        one.iter().chain(two.iter()).map(|s| s.to_string()).collect::<BTreeSet<_>>().into_iter().collect();
    assert_eq!(r.batch_number_kpc, expected);
}

#[test]
fn raw_wheel_of_kpc_row() {
    let cells = vec![
        some("H1"),
        some("M1"),
        some("T1"),
        some("/img/2025/20250323120740.png"),
        some("2025-03-23 12:07:40"),
        some("B1"),
    ];
    let w = raw_wheel_from_cells(Line::One, &cells);
    assert_eq!(w.hot_number, some("H1"));
    assert_eq!(w.malting, some("M1"));
    assert_eq!(w.task, some("T1"));
    assert_eq!(w.file_name, some("20250323120740.png"));
    assert_eq!(w.date_time, some("2025-03-23 12:07:40"));
    assert_eq!(w.batch, some("B1"));
}

#[test]
fn raw_wheel_of_bay6_row() {
    let cells = vec![some("BC"), some("M6"), some("/x/20250101010101"), some("B6")];
    let w = raw_wheel_from_cells(Line::Pr6, &cells);
    assert_eq!(w.hot_number, some("BC"));
    assert_eq!(w.malting, some("M6"));
    assert_eq!(w.task, None);
    assert_eq!(w.file_name, some("20250101010101.png"));
    assert_eq!(w.date_time, some("/x/20250101010101"));
    assert_eq!(w.batch, some("B6"));
    let w2 = raw_wheel_from_cells(Line::Pr6, &vec![None, None, None, None]);
    assert_eq!(w2.file_name, None);
}

fn wheel(n: &str) -> RawWheel {
    RawWheel {
        hot_number: some(&format!("H{}", n)),
        malting: some(&format!("M{}", n)),
        batch: some(&format!("B{}", n)),
        task: None,
        date_time: some(&format!("D{}", n)),
        file_name: some(&format!("F{}", n)),
    }
}

#[test]
fn file_names_of_rows() {
    let rows = vec![wheel("1"), wheel("2")];
    assert_eq!(file_names(&rows), vec![some("F1"), some("F2")]);
}

#[test]
fn line_result_with_images() {
    let r: LineResult =
        assemble_line_result(Line::One, vec![wheel("1"), wheel("2")], Ok(vec![some("/p/1"), None]));
    assert!(r.error.is_none());
    let d = r.data.unwrap();
    assert_eq!(d.hot_number, vec![some("H1"), some("H2")]);
    assert_eq!(d.malting_namber, vec![some("M1"), some("M2")]);
    assert_eq!(d.batch_number, vec![some("B1"), some("B2")]);
    assert_eq!(d.task_number, vec![None, None]);
    assert_eq!(d.date_time, vec![some("D1"), some("D2")]);
    assert_eq!(d.path_img, vec![some("/p/1"), None]);
}

#[test]
fn line_result_without_images() {
    let r = assemble_line_result(Line::Two, vec![wheel("1")], Err("share offline".to_string()));
    assert_eq!(r.error, some("КПЦ, линия №2: картинки недоступны (share offline)"));
    let d = r.data.unwrap();
    assert_eq!(d.hot_number, vec![some("H1")]);
    assert_eq!(d.path_img, vec![None]);
}

#[test]
fn line_result_columns_have_equal_length() {
    let r = assemble_line_result(Line::One, vec![wheel("1"), wheel("2"), wheel("3")], Ok(vec![None]));
    let d: WheelLineData = r.data.unwrap();
    let lens = [
        d.hot_number.len(),
        d.malting_namber.len(),
        d.batch_number.len(),
        d.task_number.len(),
        d.path_img.len(),
        d.date_time.len(),
    ];
    assert_eq!(lens, [1; 6]);
}

#[test]
fn line_result_of_unreachable_line() {
    let r = line_failure(Line::Pr6, "нет ответа за 10 с");
    assert!(r.data.is_none());
    assert_eq!(r.error, some("Пролёт №6: нет связи (нет ответа за 10 с)"));
}

#[test]
fn places() {
    assert!(is_kpc_place("КПЦ"));
    assert!(!is_kpc_place("КПЦ "));
    assert!(!is_kpc_place("Пролёт"));
    assert_eq!(wheel_lines("КПЦ"), vec![Line::One, Line::Two]);
    assert_eq!(wheel_lines("6"), vec![Line::Pr6]);
}

#[test]
fn wheel_place_leaves_other_lines_empty() {
    let a = line_failure(Line::One, "a");
    let b = line_failure(Line::Two, "b");
    let p: WheelPlace = wheel_place("КПЦ", vec![a, b]);
    assert!(p.pr_6.is_none());
    assert_eq!(p.line_one.unwrap().error, some("КПЦ, линия №1: нет связи (a)"));
    assert_eq!(p.line_two.unwrap().error, some("КПЦ, линия №2: нет связи (b)"));
    let c = line_failure(Line::Pr6, "c");
    let q = wheel_place("Пролёт №6", vec![c]);
    assert!(q.line_one.is_none() && q.line_two.is_none());
    assert!(q.pr_6.is_some());
}

fn filter(batch: Option<&str>, malting: Option<&str>) -> DataFilter {
    DataFilter {
        place: "КПЦ".to_string(),
        batch_number: batch.map(|s| s.to_string()),
        malting: malting.map(|s| s.to_string()),
    }
}

#[test]
fn filter_prefers_heat() {
    assert_eq!(select_filter(&filter(Some("B1"), Some(" M1 "))), Some((true, "M1".to_string())));
}

#[test]
fn filter_falls_back_to_batch() {
    assert_eq!(select_filter(&filter(Some(" B1"), Some("  "))), Some((false, "B1".to_string())));
    assert_eq!(select_filter(&filter(Some("B1"), None)), Some((false, "B1".to_string())));
}

#[test]
fn filter_refused_when_empty() {
    assert_eq!(select_filter(&filter(None, None)), None);
    assert_eq!(select_filter(&filter(Some("\t"), Some(""))), None);
}

#[test]
fn defaults_are_empty() {
    let d = DataAscan::default();
    assert!(d.batch_number_kpc.is_empty() && d.errors.is_empty());
    let w = WheelLineData::default();
    assert!(w.hot_number.is_empty() && w.path_img.is_empty());
    let l = LineResult::default();
    assert!(l.data.is_none() && l.error.is_none());
    let p = WheelPlace::default();
    assert!(p.pr_6.is_none() && p.line_one.is_none() && p.line_two.is_none());
}

#[test]
fn file_names_are_whole_components() {
    for p in ["a/b", "a/b/.", "./x/", "/y//", "x/..", "..", "."].iter() {
        if let Some(n) = file_name_of(p) {
            assert!(!n.is_empty() && !n.contains('/') && n != "." && n != "..", "path {:?}", p);
        }
    }
}

#[test]
fn answering_line_listed_whatever_the_other() {
    let ok = collect_source_lists(lists(&["B1"], &["M1"]), lists(&["B2"], &[]), Err("x".into()));
    let failed = collect_source_lists(lists(&["B1"], &["M1"]), Err("y".into()), Err("x".into()));
    assert!(ok.batch_number_kpc.contains(&"B1".to_string()));
    assert_eq!(failed.batch_number_kpc, strings(&["B1"]));
    assert_eq!(failed.malting_for_kpc, strings(&["M1"]));
}
