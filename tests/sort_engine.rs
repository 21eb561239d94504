use iris::config::{choose_target, TargetChoice, GeneralConfig, IrisConfig, Mode, PresetConfig, Target, TargetResolutionError, ValidationError};
use iris::planner::{destination_bases, guard_target, plan, protected_paths, reserve_destination, DirEntry, Listing, Platform, ProtectedPaths};
use iris::report::{count_moved, destination_dirs, group_moved, less_than, parent_dir, summary_line};
use iris::rules::{find_dirs_rule, get_dest_base, protected_names, RuleIndex};

fn preset(name: &str, exts: &[&str], rel: Option<&str>, abs: Option<&str>) -> PresetConfig {
    PresetConfig {
        name: name.to_string(),
        enabled: true,
        extension: exts.iter().map(|e| e.to_string()).collect(),
        relative_path: rel.map(|s| s.to_string()),
        absolute_path: abs.map(|s| s.to_string()),
    }
}

fn config(mode: Mode, presets: Vec<PresetConfig>) -> IrisConfig {
    IrisConfig {
        general: GeneralConfig { target: Some(Target::Required), mode, presets_path: None },
        presets,
    }
}

fn unprotected() -> ProtectedPaths {
    ProtectedPaths { paths: vec![], windows: false }
}

fn listing(paths: Vec<String>) -> Listing {
    Listing { paths, case_insensitive: false }
}

fn file(name: &str) -> DirEntry {
    DirEntry { name: name.to_string(), is_dir: false }
}

fn dir(name: &str) -> DirEntry {
    DirEntry { name: name.to_string(), is_dir: true }
}

fn pairs(moves: &[iris::planner::PlannedMove]) -> Vec<(String, String)> {
    moves.iter().map(|m| (m.source.clone(), m.destination.clone())).collect()
}

#[test]
fn images_scenario_moves_two_files() {
    let cfg = config(Mode::Relative, vec![preset("images", &["png", "jpg"], Some("Pictures"), None)]);
    let entries = vec![file("a.png"), file("b.jpg"), file("c.txt")];
    let moves = plan("/tmp/t", &entries, &cfg, &protected_paths(Platform::Linux), &listing(vec![])).unwrap().moves;
    assert_eq!(
        pairs(&moves),
        vec![
            ("/tmp/t/a.png".to_string(), "/tmp/t/Pictures/a.png".to_string()),
            ("/tmp/t/b.jpg".to_string(), "/tmp/t/Pictures/b.jpg".to_string()),
        ]
    );
    let outcomes: Vec<Result<(), String>> = moves.iter().map(|_| Ok(())).collect();
    assert_eq!(count_moved(&outcomes), 2);
    assert_eq!(summary_line(count_moved(&outcomes)), "Summary: 2 files moved");
}

#[test]
fn existing_destination_gets_numbered_name() {
    let cfg = config(Mode::Relative, vec![preset("images", &["png", "jpg"], Some("Pictures"), None)]);
    let entries = vec![file("a.png")];
    let existing = vec!["/tmp/t/Pictures/a.png".to_string()];
    let moves = plan("/tmp/t", &entries, &cfg, &unprotected(), &listing(existing)).unwrap().moves;
    assert_eq!(pairs(&moves), vec![("/tmp/t/a.png".to_string(), "/tmp/t/Pictures/a-1.png".to_string())]);
}

#[test]
fn smallest_free_number_is_taken() {
    let existing = listing(vec!["/d/a.png".to_string(), "/d/a-1.png".to_string(), "/d/a-3.png".to_string()]);
    let mut reserved = vec!["/d/a-2.png".to_string()];
    let d = reserve_destination("/d", "a.png", false, &existing, &mut reserved);
    assert_eq!(d, Some("/d/a-4.png".to_string()));
    assert_eq!(reserved, vec!["/d/a-2.png".to_string(), "/d/a-4.png".to_string()]);
    let free = reserve_destination("/d", "b.png", false, &existing, &mut reserved);
    assert_eq!(free, Some("/d/b.png".to_string()));
}

#[test]
fn same_name_in_one_run_gets_distinct_destinations() {
    let cfg = config(
        Mode::Absolute,
        vec![preset("docs", &["txt"], None, Some("/out")), preset("notes", &["md"], None, Some("/out"))],
    );
    let entries = vec![file("x.txt"), file("X.TXT"), file("n.md")];
    let moves = plan("/in", &entries, &cfg, &unprotected(), &listing(vec!["/out/x.txt".to_string()])).unwrap().moves;
    assert_eq!(
        pairs(&moves),
        vec![
            ("/in/x.txt".to_string(), "/out/x-1.txt".to_string()),
            ("/in/X.TXT".to_string(), "/out/X.TXT".to_string()),
            ("/in/n.md".to_string(), "/out/n.md".to_string()),
        ]
    );
}

#[test]
fn first_declared_rule_wins() {
    let presets = vec![
        preset("first", &["PNG"], Some("One"), None),
        preset("second", &["png", "gif"], Some("Two"), None),
    ];
    let index = RuleIndex::new(&presets);
    assert_eq!(index.lookup("png"), Some(0));
    assert_eq!(index.lookup("gif"), Some(1));
    assert_eq!(index.lookup("txt"), None);
    let cfg = config(Mode::Relative, presets);
    let moves = plan("/t", &vec![file("p.Png")], &cfg, &unprotected(), &listing(vec![])).unwrap().moves;
    assert_eq!(pairs(&moves), vec![("/t/p.Png".to_string(), "/t/One/p.Png".to_string())]);
}

#[test]
fn disabled_rules_claim_nothing() {
    let mut off = preset("off", &["png"], Some("Off"), None);
    off.enabled = false;
    let presets = vec![off, preset("on", &["png"], Some("On"), None)];
    let index = RuleIndex::new(&presets);
    assert_eq!(index.lookup("png"), Some(1));
}

#[test]
fn files_without_extension_stay() {
    let cfg = config(Mode::Relative, vec![preset("any", &["txt", ""], Some("Sorted"), None)]);
    let entries = vec![file("README"), file(".bashrc"), file("notes.txt")];
    let moves = plan("/t", &entries, &cfg, &unprotected(), &listing(vec![])).unwrap().moves;
    assert_eq!(pairs(&moves), vec![("/t/notes.txt".to_string(), "/t/Sorted/notes.txt".to_string())]);
}

#[test]
fn protected_target_is_refused() {
    let cfg = config(Mode::Relative, vec![preset("images", &["png"], Some("Pictures"), None)]);
    let r = plan("/", &vec![file("a.png")], &cfg, &protected_paths(Platform::Linux), &listing(vec![]));
    assert_eq!(r.unwrap_err(), "Operation aborted. '/' is a protected system path.");
    let inside = plan("/usr/share", &vec![file("a.png")], &cfg, &protected_paths(Platform::Linux), &listing(vec![]));
    assert_eq!(inside.unwrap().moves.len(), 1);
}

#[test]
fn protected_destination_is_skipped() {
    let cfg = config(Mode::Absolute, vec![preset("bins", &["sh"], None, Some("/usr"))]);
    let moves = plan("/home/u", &vec![file("x.sh")], &cfg, &protected_paths(Platform::Linux), &listing(vec![])).unwrap().moves;
    assert!(moves.is_empty());
}

#[test]
fn missing_path_for_mode_skips_entry() {
    let cfg = config(Mode::Absolute, vec![preset("images", &["png"], Some("Pictures"), None)]);
    let moves = plan("/t", &vec![file("a.png")], &cfg, &unprotected(), &listing(vec![])).unwrap().moves;
    assert!(moves.is_empty());
}

#[test]
fn dest_base_by_mode() {
    let p = preset("images", &["png"], Some("Pictures"), Some("/abs/pics"));
    assert_eq!(get_dest_base("/t", &p, Mode::Relative), Ok("/t/Pictures".to_string()));
    assert_eq!(get_dest_base("/t", &p, Mode::Absolute), Ok("/abs/pics".to_string()));
    let q = preset("docs", &["txt"], None, None);
    assert_eq!(get_dest_base("/t", &q, Mode::Relative), Err("preset 'docs' missing relative_path".to_string()));
    assert_eq!(get_dest_base("/t", &q, Mode::Absolute), Err("preset 'docs' missing absolute_path".to_string()));
}

#[test]
fn directories_sorted_only_with_dirs_rule() {
    let without = config(Mode::Relative, vec![preset("images", &["png"], Some("Pictures"), None)]);
    let entries = vec![dir("Projects"), dir("Pictures"), dir("Folders")];
    assert!(plan("/t", &entries, &without, &unprotected(), &listing(vec![])).unwrap().moves.is_empty());
    let with = config(
        Mode::Relative,
        vec![preset("images", &["png"], Some("Pictures"), None), preset("dirs", &[], Some("Folders"), None)],
    );
    let moves = plan("/t", &entries, &with, &unprotected(), &listing(vec![])).unwrap().moves;
    assert_eq!(pairs(&moves), vec![("/t/Projects".to_string(), "/t/Folders/Projects".to_string())]);
    assert_eq!(find_dirs_rule(&with.presets), Some(1));
}

#[test]
fn directory_collision_uses_bare_suffix() {
    let cfg = config(Mode::Relative, vec![preset("dirs", &[], Some("Folders"), None)]);
    let existing = vec!["/t/Folders/my.dir".to_string()];
    let moves = plan("/t", &vec![dir("my.dir")], &cfg, &unprotected(), &listing(existing)).unwrap().moves;
    assert_eq!(pairs(&moves), vec![("/t/my.dir".to_string(), "/t/Folders/my.dir-1".to_string())]);
}

#[test]
fn second_run_moves_nothing() {
    let cfg = config(
        Mode::Relative,
        vec![preset("images", &["png"], Some("Pictures"), None), preset("dirs", &[], Some("Folders/sub"), None)],
    );
    let first = vec![file("a.png"), file("notes"), dir("Projects")];
    let moves = plan("/t", &first, &cfg, &unprotected(), &listing(vec![])).unwrap().moves;
    assert_eq!(moves.len(), 2);
    let second = vec![file("notes"), dir("Pictures"), dir("folders")];
    let existing = vec!["/t/Pictures/a.png".to_string(), "/t/Folders/sub/Projects".to_string()];
    assert!(plan("/t", &second, &cfg, &unprotected(), &listing(existing)).unwrap().moves.is_empty());
}

#[test]
fn protected_names_only_in_relative_mode() {
    let presets = vec![
        preset("images", &["png"], Some("Pictures/raw"), None),
        preset("docs", &["txt"], Some("./Docs"), None),
    ];
    assert_eq!(protected_names(&presets, Mode::Relative), vec!["pictures".to_string()]);
    assert!(protected_names(&presets, Mode::Absolute).is_empty());
}

#[test]
fn destination_bases_of_enabled_rules() {
    let mut off = preset("off", &["png"], Some("Off"), None);
    off.enabled = false;
    let cfg = config(Mode::Relative, vec![preset("a", &["x"], Some("A"), None), off, preset("b", &["y"], None, None)]);
    assert_eq!(destination_bases("/t", &cfg), vec!["/t/A".to_string()]);
}

#[test]
fn protected_path_lists() {
    let linux = protected_paths(Platform::Linux);
    assert_eq!(linux.paths.len(), 20);
    assert!(!linux.windows);
    assert!(linux.paths.contains(&"/".to_string()));
    let windows = protected_paths(Platform::Windows);
    assert!(windows.windows);
    assert!(windows.paths.contains(&"C:\\Windows".to_string()));
    assert!(protected_paths(Platform::Other).paths.is_empty());
}

#[test]
fn report_helpers() {
    assert_eq!(parent_dir("/t/Pictures/a.png"), "/t/Pictures");
    assert_eq!(parent_dir("/a.png"), "/");
    assert_eq!(parent_dir("a.png"), "");
    assert_eq!(summary_line(1), "Summary: 1 file moved");
    assert_eq!(count_moved(&vec![Ok(()), Err("x".to_string()), Ok(())]), 2);
}

#[test]
fn error_messages() {
    assert_eq!(
        TargetResolutionError::PathRequiredButNotProvided.message(),
        "target is set to 'required' in config. you must provide a path"
    );
    assert_eq!(TargetResolutionError::ProvidedPathInvalid.message(), "provided path doesn't exist or is invalid");
    let e = ValidationError::MissingKey { key: "mode".to_string(), section: "general".to_string() };
    assert_eq!(e.message(), "missing key 'mode' in general section");
    assert_eq!(ValidationError::NoEnabledPresets.message(), "There are no enabled presets in the [preset] section of the config file.");
    assert_eq!(TargetResolutionError::FailedToGetDownloadsDir.message(), "failed to get downloads directory");
    assert_eq!(TargetResolutionError::FailedToGetCurrentDir.message(), "failed to get current working directory");
    assert_eq!(
        ValidationError::Io("disk".to_string()).message(),
        "input/output error while validating config: disk"
    );
    assert_eq!(
        ValidationError::InvalidKey { preset: "docs".to_string(), key: "foo".to_string() }.message(),
        "invalid key 'foo' in docs"
    );
    assert_eq!(ValidationError::NoEntries { section: "general".to_string() }.message(), "no entries for general section");
}

#[test]
fn unplaceable_entries_are_noted() {
    let cfg = config(
        Mode::Absolute,
        vec![preset("bins", &["sh"], None, Some("/usr")), preset("images", &["png"], Some("Pictures"), None)],
    );
    let p = plan("/home/u", &vec![file("x.sh"), file("a.png"), file("b.txt")], &cfg, &protected_paths(Platform::Linux), &listing(vec![])).unwrap();
    assert!(p.moves.is_empty());
    assert_eq!(
        p.notes,
        vec![
            "Refusing to sort into protected path: /usr".to_string(),
            "Could not determine sort destination for '/home/u/a.png': preset 'images' missing absolute_path".to_string(),
        ]
    );
}

#[test]
fn guard_is_exact_match() {
    let protected = protected_paths(Platform::MacOs);
    assert_eq!(guard_target("/System", &protected), Err("Operation aborted. '/System' is a protected system path.".to_string()));
    assert_eq!(guard_target("/System/Library", &protected), Ok(()));
}

#[test]
fn target_choice() {
    let p = "/some/dir".to_string();
    assert_eq!(choose_target(Some(Target::Required), Some(&p)), Ok(TargetChoice::Given(p.clone())));
    assert_eq!(choose_target(Some(Target::Downloads), Some(&p)), Ok(TargetChoice::Given(p.clone())));
    assert_eq!(
        choose_target(Some(Target::Required), None),
        Err(TargetResolutionError::PathRequiredButNotProvided)
    );
    assert_eq!(choose_target(None, None), Err(TargetResolutionError::PathRequiredButNotProvided));
    assert_eq!(choose_target(Some(Target::Downloads), None), Ok(TargetChoice::DownloadsDir));
    assert_eq!(choose_target(Some(Target::CurrentDir), None), Ok(TargetChoice::CurrentDir));
}

#[test]
fn destination_folders_are_deduplicated() {
    let cfg = config(
        Mode::Relative,
        vec![preset("images", &["png"], Some("Pictures"), None), preset("docs", &["txt"], Some("Docs"), None)],
    );
    let entries = vec![file("a.png"), file("b.txt"), file("c.png")];
    let moves = plan("/t", &entries, &cfg, &unprotected(), &listing(vec![])).unwrap().moves;
    assert_eq!(destination_dirs(&moves), vec!["/t/Pictures".to_string(), "/t/Docs".to_string()]);
}

#[test]
fn case_insensitive_listing_counts_case_variants_as_taken() {
    let cfg = config(Mode::Relative, vec![preset("images", &["png"], Some("Pictures"), None)]);
    let existing = vec!["/t/Pictures/A.PNG".to_string()];
    let exact = plan("/t", &vec![file("a.png")], &cfg, &unprotected(), &listing(existing.clone())).unwrap().moves;
    assert_eq!(exact[0].destination, "/t/Pictures/a.png");
    let folded = Listing { paths: existing, case_insensitive: true };
    let moves = plan("/t", &vec![file("a.png")], &cfg, &unprotected(), &folded).unwrap().moves;
    assert_eq!(moves[0].destination, "/t/Pictures/a-1.png");
}

#[test]
fn successes_grouped_by_sorted_folder() {
    let mv = |s: &str, d: &str| iris::planner::PlannedMove { source: s.to_string(), destination: d.to_string() };
    let moves = vec![
        mv("/t/z.txt", "/t/Docs/z.txt"),
        mv("/t/a.png", "/t/Pictures/a.png"),
        mv("/t/b.txt", "/t/Docs/b.txt"),
        mv("/t/c.png", "/t/Pictures/c.png"),
        mv("/t/d.mp3", "/t/Audio/d.mp3"),
    ];
    let outcomes = vec![Ok(()), Ok(()), Ok(()), Err("busy".to_string()), Err("gone".to_string())];
    let groups = group_moved(&moves, &outcomes);
    let flat: Vec<(String, Vec<String>)> = groups.into_iter().map(|g| (g.folder, g.sources)).collect();
    assert_eq!(
        flat,
        vec![
            ("/t/Docs".to_string(), vec!["/t/z.txt".to_string(), "/t/b.txt".to_string()]),
            ("/t/Pictures".to_string(), vec!["/t/a.png".to_string()]),
        ]
    );
}

#[test]
fn character_order() {
    assert!(less_than("/t/A", "/t/B"));
    assert!(less_than("/t", "/t/B"));
    assert!(!less_than("/t/B", "/t/B"));
    assert!(!less_than("b", "a"));
}

#[test]
fn protected_paths_match_once_normalized() {
    let cfg = config(Mode::Absolute, vec![preset("bins", &["sh"], None, Some("/usr/"))]);
    let p = plan("/home/u", &vec![file("x.sh")], &cfg, &protected_paths(Platform::Linux), &listing(vec![])).unwrap();
    assert!(p.moves.is_empty());
    assert_eq!(p.notes, vec!["Refusing to sort into protected path: /usr/".to_string()]);
    assert!(guard_target("/usr/.", &protected_paths(Platform::Linux)).is_err());
}

#[test]
fn dirs_rule_does_not_move_its_own_base() {
    let cfg = config(Mode::Absolute, vec![preset("dirs", &[], None, Some("/t/Folders/"))]);
    let moves = plan("/t", &vec![dir("Folders"), dir("Work")], &cfg, &unprotected(), &listing(vec![])).unwrap().moves;
    assert_eq!(pairs(&moves), vec![("/t/Work".to_string(), "/t/Folders/Work".to_string())]);
}

#[test]
fn folders_order_by_component() {
    assert!(less_than("/t/a/b", "/t/a-b"));
    assert!(!less_than("/t/a-b", "/t/a/b"));
}

#[test]
fn windows_guard_treats_both_separators() {
    let protected = protected_paths(Platform::Windows);
    for t in ["C:/Windows", "C:\\Windows\\", "C:\\Users\\me\\..\\..\\Windows", "C:\\"] {
        assert!(guard_target(t, &protected).is_err(), "{}", t);
    }
    assert!(guard_target("C:\\Windows\\Temp", &protected).is_ok());
    let cfg = config(Mode::Absolute, vec![preset("bins", &["exe"], None, Some("C:/Windows"))]);
    let p = plan("D:\\in", &vec![file("x.exe")], &cfg, &protected, &listing(vec![])).unwrap();
    assert!(p.moves.is_empty());
    assert_eq!(p.notes, vec!["Refusing to sort into protected path: C:/Windows".to_string()]);
}
