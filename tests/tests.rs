use re_name::execute::{check_plan, execution_step, not_overwritten_line, nothing_matched, rename_line, Execution};
use re_name::options::Options;
use re_name::paths::{bytes_equal, bytes_less, strip_current_dir};
use re_name::pattern::build_regex;
use re_name::plan::{get_name_map, plan_from_scan, RenamePlan, ScanEntry};
use re_name::report::{destination_exists_msg, duplicate_msg, map_to_source_msg, render_duplicates};
use re_name::validate::{validate, Conflict};
use std::collections::{BTreeMap, HashMap};

fn options(source: &str, destination: &str, preview: bool, force: bool) -> Options {
    Options {
        source: source.to_string(),
        destination: destination.to_string(),
        preview,
        verbose: false,
        force,
        match_subdirs: false,
    }
}

/// The entries a walk of the current directory yields for these names.
fn scan_of(names: &[&str]) -> Vec<ScanEntry> {
    let mut scan = vec![ScanEntry { path: b"./".to_vec(), depth: 0 }];
    for name in names {
        scan.push(ScanEntry { path: format!("./{}", name).into_bytes(), depth: 1 });
    }
    scan
}

fn pairs(plan: &RenamePlan) -> Vec<(String, String)> {
    plan.entries
        .iter()
        .map(|e| (String::from_utf8(e.source.clone()).unwrap(), String::from_utf8(e.destination.clone()).unwrap()))
        .collect()
}

/// A directory held in memory: each file's name and content.
type Dir = BTreeMap<String, String>;

fn dir_of(names: &[&str]) -> Dir {
    names.iter().map(|n| (n.to_string(), n.to_string())).collect()
}

/// One run of the tool on an in-memory directory: plan, validate, execute.
fn run(dir: &mut Dir, opts: &Options) -> Result<usize, String> {
    let names: Vec<&str> = dir.keys().map(|k| k.as_str()).collect();
    let scan = scan_of(&names);
    let plan = get_name_map(&opts.source, &opts.destination, &scan).map_err(|e| e.to_string())?;
    let exists: Vec<bool> = plan
        .entries
        .iter()
        .map(|e| dir.contains_key(&String::from_utf8(e.destination.clone()).unwrap()))
        .collect();
    check_plan(&plan, &exists, opts.force)?;
    if nothing_matched(&plan).is_some() {
        return Ok(0);
    }
    let mut execution = Execution::start(&plan, opts);
    while !execution.is_finished(&plan) {
        let e = &plan.entries[execution.next];
        let s = String::from_utf8(e.source.clone()).unwrap();
        let d = String::from_utf8(e.destination.clone()).unwrap();
        let step = execution.step(&plan, opts, !opts.preview && dir.contains_key(&d));
        if step.rename {
            let content = dir.remove(&s).unwrap();
            dir.insert(d, content);
        }
    }
    Ok(execution.renamed)
}

/// A standard invocation which is expected to succeed and move files according to the file_map.
fn standard_test(source: &str, destination: &str, file_map: HashMap<&str, &str>) {
    let names: Vec<&str> = file_map.keys().copied().collect();
    let mut dir = dir_of(&names);
    for (&from, _) in &file_map {
        assert!(dir.get(from).map(|c| c.as_str()) == Some(from));
    }
    assert!(run(&mut dir, &options(source, destination, false, false)).is_ok());
    for (&from, &to) in &file_map {
        assert!(dir.get(to).map(|c| c.as_str()) == Some(from));
    }
}

#[test]
fn no_move() {
    let file_map = HashMap::from([("a", "a"), ("b", "b"), ("c", "c"), ("d", "d")]);
    standard_test("z", "z1", file_map);
}

#[test]
fn plain_text_move() {
    let file_map = HashMap::from([("a", "a1"), ("b", "b"), ("c", "c"), ("d", "d")]);
    standard_test("a", "a1", file_map);
}

#[test]
fn escaped_plain_text_move() {
    let file_map = HashMap::from([("a.rs", "a1.rs"), ("b.rs", "b.rs"), ("c.rs", "c.rs"), ("d.rs", "d.rs")]);
    standard_test("a\\.rs", "a1.rs", file_map);
}

#[test]
fn simple_regex_move() {
    let file_map = HashMap::from([("a.rs", "a.rr"), ("b.rs", "b.rr"), ("cc.rs", "cc.rs"), ("dd.rs", "dd.rs")]);
    standard_test("(\\w)\\.rs", "$1.rr", file_map);
}

#[test]
fn empty_plan_succeeds_with_zero() {
    let mut dir = dir_of(&["a", "b"]);
    let before = dir.clone();
    assert_eq!(run(&mut dir, &options("z", "z1", false, false)), Ok(0));
    assert_eq!(dir, before);
}

#[test]
fn clean_plan_moves_every_source() {
    let mut dir = dir_of(&["a.rs", "b.rs", "c.txt"]);
    assert_eq!(run(&mut dir, &options("(\\w)\\.rs", "$1.md", false, false)), Ok(2));
    let expected = BTreeMap::from([
        ("a.md".to_string(), "a.rs".to_string()),
        ("b.md".to_string(), "b.rs".to_string()),
        ("c.txt".to_string(), "c.txt".to_string()),
    ]);
    assert_eq!(dir, expected);
}

#[test]
fn second_run_plans_nothing() {
    let mut dir = dir_of(&["a.rs", "b.rs", "cc.rs"]);
    let opts = options("(\\w)\\.rs", "$1.rr", false, false);
    assert_eq!(run(&mut dir, &opts), Ok(2));
    let names: Vec<&str> = dir.keys().map(|k| k.as_str()).collect();
    let plan = get_name_map(&opts.source, &opts.destination, &scan_of(&names)).unwrap();
    assert!(plan.is_empty());
    assert_eq!(run(&mut dir, &opts), Ok(0));
}

#[test]
fn preview_leaves_directory_alone() {
    let mut dir = dir_of(&["a.rs", "b.rs"]);
    let before = dir.clone();
    assert_eq!(run(&mut dir, &options("(\\w)\\.rs", "$1.rr", true, false)), Ok(2));
    assert_eq!(dir, before);
}

#[test]
fn duplicate_destinations_are_refused() {
    let mut dir = dir_of(&["a.rs", "b.rs"]);
    let before = dir.clone();
    let opts = options("(\\w)\\.rs", "x.rs", false, false);
    let scan = scan_of(&["a.rs", "b.rs"]);
    let plan = get_name_map(&opts.source, &opts.destination, &scan).unwrap();
    assert_eq!(validate(&plan, &vec![false, false], false), Err(Conflict::DuplicateDestinations));
    let err = run(&mut dir, &opts).unwrap_err();
    assert_eq!(
        err,
        "Multiple sources map to the same destination.\nThe following sources all map to 'x.rs':\n'a.rs'\n'b.rs'\n"
    );
    assert_eq!(dir, before);
}

#[test]
fn overlapping_renames_are_refused() {
    let scan = scan_of(&["a", "b"]);
    let plan = get_name_map(&"a|b".to_string(), &"b".to_string(), &scan).unwrap();
    assert_eq!(pairs(&plan), vec![("a".to_string(), "b".to_string())]);
    let scan = scan_of(&["a", "b", "c"]);
    let plan = get_name_map(&"(a|b)".to_string(), &"${1}x".to_string(), &scan).unwrap();
    assert_eq!(validate(&plan, &vec![false, false], false), Ok(()));
    let plan = get_name_map(&"a|b".to_string(), &"c".to_string(), &scan_of(&["a", "b"])).unwrap();
    assert_eq!(validate(&plan, &vec![false, false], false), Err(Conflict::DuplicateDestinations));
    let mut chain = RenamePlan::new();
    chain.insert(b"a".to_vec(), b"b".to_vec());
    chain.insert(b"b".to_vec(), b"c".to_vec());
    assert_eq!(validate(&chain, &vec![false, false], false), Err(Conflict::SourceDestinationOverlap));
    assert_eq!(
        map_to_source_msg(&chain),
        "Some sources map to another sources.\nThe following files or folders are conflicting:\n'a' ⇒ 'b'\n"
    );
}

#[test]
fn existing_destination_without_force_is_refused() {
    let mut dir = dir_of(&["a.rs", "a1.rs"]);
    let before = dir.clone();
    let err = run(&mut dir, &options("a\\.rs", "a1.rs", false, false)).unwrap_err();
    assert_eq!(err, "The following destinations already exist:\n'a.rs' ⇒ 'a1.rs'\n");
    assert_eq!(dir, before);
}

#[test]
fn existing_destination_with_force_is_replaced() {
    let mut dir = dir_of(&["a.rs", "a1.rs"]);
    assert_eq!(run(&mut dir, &options("a\\.rs", "a1.rs", false, true)), Ok(1));
    let expected = BTreeMap::from([("a1.rs".to_string(), "a.rs".to_string())]);
    assert_eq!(dir, expected);
}

#[test]
fn execution_time_recheck_skips_existing() {
    let opts = options("a", "b", false, false);
    let step = execution_step(&opts, true);
    assert!(!step.rename && !step.counted && step.refused);
    let step = execution_step(&opts, false);
    assert!(step.rename && step.counted && !step.refused && !step.announce);
    let forced = options("a", "b", false, true);
    assert!(execution_step(&forced, true).rename);
    let preview = options("a", "b", true, false);
    let step = execution_step(&preview, false);
    assert!(!step.rename && step.counted && step.announce);
}

#[test]
fn escaped_dot_matches_only_a_dot() {
    let scan = scan_of(&["a.rs", "arXrs", "a_rs", "aXrs"]);
    let plan = get_name_map(&"a\\.rs".to_string(), &"z".to_string(), &scan).unwrap();
    assert_eq!(pairs(&plan), vec![("a.rs".to_string(), "z".to_string())]);
    let plan = get_name_map(&"a.rs".to_string(), &"z$0".to_string(), &scan).unwrap();
    assert_eq!(
        pairs(&plan),
        vec![
            ("a.rs".to_string(), "za.rs".to_string()),
            ("aXrs".to_string(), "zaXrs".to_string()),
            ("a_rs".to_string(), "za_rs".to_string()),
        ]
    );
}

#[test]
fn example_scenario_plan() {
    let scan = scan_of(&["dd.rs", "b.rs", "cc.rs", "a.rs"]);
    let plan = get_name_map(&"(\\w)\\.rs".to_string(), &"$1.rr".to_string(), &scan).unwrap();
    assert_eq!(
        pairs(&plan),
        vec![("a.rs".to_string(), "a.rr".to_string()), ("b.rs".to_string(), "b.rr".to_string())]
    );
}

#[test]
fn pattern_is_anchored() {
    let scan = scan_of(&["xa", "ax", "a"]);
    let plan = get_name_map(&"a".to_string(), &"b".to_string(), &scan).unwrap();
    assert_eq!(pairs(&plan), vec![("a".to_string(), "b".to_string())]);
}

#[test]
fn invalid_pattern_is_an_error() {
    assert!(build_regex(&"(".to_string()).is_err());
    assert!(get_name_map(&"a(".to_string(), &"b".to_string(), &scan_of(&["a"])).is_err());
    assert!(build_regex(&"a+".to_string()).is_ok());
}

#[test]
fn root_and_identity_are_not_planned() {
    let scan = vec![ScanEntry { path: b".".to_vec(), depth: 0 }, ScanEntry { path: b"./a".to_vec(), depth: 1 }];
    let plan = get_name_map(&".*".to_string(), &"$0".to_string(), &scan).unwrap();
    assert!(plan.is_empty());
    let plan = get_name_map(&"\\.?".to_string(), &"x".to_string(), &scan).unwrap();
    assert!(plan.is_empty());
}

#[test]
fn subdirectory_paths_are_relative() {
    let scan = vec![
        ScanEntry { path: b"./".to_vec(), depth: 0 },
        ScanEntry { path: b"./d".to_vec(), depth: 1 },
        ScanEntry { path: b"./d/a.rs".to_vec(), depth: 2 },
    ];
    let matcher = build_regex(&"d/(\\w)\\.rs".to_string()).unwrap();
    let plan = plan_from_scan(&matcher, &"d/$1.rr".to_string(), &scan);
    assert_eq!(pairs(&plan), vec![("d/a.rs".to_string(), "d/a.rr".to_string())]);
}

#[test]
fn non_utf8_names_are_kept_byte_for_byte() {
    let scan = vec![ScanEntry { path: b"./\xffa".to_vec(), depth: 1 }];
    let plan = get_name_map(&"(?-u)(.)a".to_string(), &"${1}b".to_string(), &scan).unwrap();
    assert_eq!(plan.entries.len(), 1);
    assert_eq!(plan.entries[0].source, b"\xffa".to_vec());
    assert_eq!(plan.entries[0].destination, b"\xffb".to_vec());
}

#[test]
fn strip_current_dir_cases() {
    assert_eq!(strip_current_dir(b"./a"), b"a".to_vec());
    assert_eq!(strip_current_dir(b".//a/b"), b"a/b".to_vec());
    assert_eq!(strip_current_dir(b"."), b"".to_vec());
    assert_eq!(strip_current_dir(b"./"), b"".to_vec());
    assert_eq!(strip_current_dir(b"a/b"), b"a/b".to_vec());
    assert_eq!(strip_current_dir(b".hidden"), b".hidden".to_vec());
    assert_eq!(strip_current_dir(b"../a"), b"../a".to_vec());
    assert_eq!(strip_current_dir(b"././a"), b"a".to_vec());
    assert_eq!(strip_current_dir(b".//.//./a/./b"), b"a/./b".to_vec());
    assert_eq!(strip_current_dir(b"./."), b"".to_vec());
    assert_eq!(strip_current_dir(b"./.hidden"), b".hidden".to_vec());
}

#[test]
fn byte_order_and_equality() {
    assert!(bytes_less(&b"a".to_vec(), &b"b".to_vec()));
    assert!(bytes_less(&b"a".to_vec(), &b"ab".to_vec()));
    assert!(!bytes_less(&b"ab".to_vec(), &b"a".to_vec()));
    assert!(!bytes_less(&b"a".to_vec(), &b"a".to_vec()));
    assert!(bytes_less(&b"".to_vec(), &b"a".to_vec()));
    assert!(bytes_equal(&b"ab".to_vec(), &b"ab".to_vec()));
    assert!(!bytes_equal(&b"ab".to_vec(), &b"ac".to_vec()));
}

#[test]
fn plan_keeps_sources_sorted_and_replaces() {
    let mut plan = RenamePlan::new();
    plan.insert(b"c".to_vec(), b"1".to_vec());
    plan.insert(b"a".to_vec(), b"2".to_vec());
    plan.insert(b"b".to_vec(), b"3".to_vec());
    plan.insert(b"a".to_vec(), b"4".to_vec());
    assert_eq!(plan.len(), 3);
    assert_eq!(
        pairs(&plan),
        vec![
            ("a".to_string(), "4".to_string()),
            ("b".to_string(), "3".to_string()),
            ("c".to_string(), "1".to_string()),
        ]
    );
}

#[test]
fn reports_render_paths() {
    let mut plan = RenamePlan::new();
    plan.insert(b"a".to_vec(), b"x".to_vec());
    plan.insert(b"b".to_vec(), b"x".to_vec());
    plan.insert(b"c".to_vec(), b"y".to_vec());
    assert_eq!(
        duplicate_msg(&plan),
        "Multiple sources map to the same destination.\nThe following sources all map to 'x':\n'a'\n'b'\n"
    );
    assert_eq!(
        render_duplicates(&plan, &vec![b"y".to_vec()]),
        "Multiple sources map to the same destination.\nThe following sources all map to 'y':\n'c'\n"
    );
    assert_eq!(
        destination_exists_msg(&plan, &vec![false, true, true]),
        "The following destinations already exist:\n'b' ⇒ 'x'\n'c' ⇒ 'y'\n"
    );
    assert_eq!(rename_line(&b"a".to_vec(), &b"b".to_vec()), "rename 'a' ⇒ 'b'\n");
    assert_eq!(not_overwritten_line(&b"\xff".to_vec()), "'\u{fffd}' already exists, will not overwrite.\n");
}

#[test]
fn validation_order_and_force() {
    let mut plan = RenamePlan::new();
    plan.insert(b"a".to_vec(), b"b".to_vec());
    assert_eq!(validate(&plan, &vec![true], false), Err(Conflict::DestinationExists));
    assert_eq!(validate(&plan, &vec![true], true), Ok(()));
    assert!(check_plan(&plan, &vec![true], true).is_ok());
    assert_eq!(Options { match_subdirs: true, ..options("a", "b", false, false) }.max_depth(), None);
    assert_eq!(options("a", "b", false, false).max_depth(), Some(1));
}

#[test]
fn duplicate_groups_follow_second_sources() {
    let mut plan = RenamePlan::new();
    plan.insert(b"a".to_vec(), b"y".to_vec());
    plan.insert(b"b".to_vec(), b"x".to_vec());
    plan.insert(b"c".to_vec(), b"y".to_vec());
    plan.insert(b"d".to_vec(), b"x".to_vec());
    plan.insert(b"e".to_vec(), b"y".to_vec());
    assert_eq!(
        duplicate_msg(&plan),
        "Multiple sources map to the same destination.\n\
         The following sources all map to 'y':\n'a'\n'c'\n'e'\n\
         The following sources all map to 'x':\n'b'\n'd'\n"
    );
}

#[test]
fn alternatives_match_only_whole_paths() {
    let scan = scan_of(&["a", "b", "ab", "ba"]);
    let plan = get_name_map(&"a|b".to_string(), &"c".to_string(), &scan).unwrap();
    let sources: Vec<String> = pairs(&plan).into_iter().map(|(s, _)| s).collect();
    assert_eq!(sources, vec!["a".to_string(), "b".to_string()]);
    assert!(build_regex(&"a)|(b".to_string()).is_err());
    assert!(get_name_map(&"a)|(b".to_string(), &"c".to_string(), &scan).is_err());
    let plan = get_name_map(&"(a)(b)".to_string(), &"$2$1".to_string(), &scan).unwrap();
    assert_eq!(pairs(&plan), vec![("ab".to_string(), "ba".to_string())]);
}

#[test]
fn nothing_matched_notice_only_for_empty_plan() {
    let plan = RenamePlan::new();
    assert_eq!(nothing_matched(&plan), Some("No files or folders match the source pattern.\n".to_string()));
    let mut plan = RenamePlan::new();
    plan.insert(b"a".to_vec(), b"b".to_vec());
    assert_eq!(nothing_matched(&plan), None);
}

#[test]
fn execution_counts_steps() {
    let mut plan = RenamePlan::new();
    plan.insert(b"a".to_vec(), b"x".to_vec());
    plan.insert(b"b".to_vec(), b"y".to_vec());
    plan.insert(b"c".to_vec(), b"z".to_vec());
    let opts = options("a", "b", false, false);
    let mut run = Execution::start(&plan, &opts);
    assert!(run.step(&plan, &opts, false).rename);
    assert!(run.step(&plan, &opts, true).refused);
    assert!(!run.is_finished(&plan));
    assert!(run.step(&plan, &opts, false).rename);
    assert!(run.is_finished(&plan));
    assert_eq!(run.renamed, 2);
    let preview = options("a", "b", true, false);
    let mut run = Execution::start(&plan, &preview);
    for _ in 0..3 {
        assert!(!run.step(&plan, &preview, true).rename);
    }
    assert_eq!(run.renamed, 3);
}

#[test]
fn verbose_comment_patterns_compile() {
    let scan = scan_of(&["a", "ab"]);
    let plan = get_name_map(&"(?x)a #c".to_string(), &"z".to_string(), &scan).unwrap();
    assert_eq!(pairs(&plan), vec![("a".to_string(), "z".to_string())]);
    let plan = get_name_map(&"a b".to_string(), &"z".to_string(), &scan_of(&["a b", "ab"])).unwrap();
    assert_eq!(pairs(&plan), vec![("a b".to_string(), "z".to_string())]);
}
