use file_engine::error::{Error, IoFailure, IoKind};
use file_engine::harness::checker::{check, error_variant_name};
use file_engine::harness::dest_probe::{has_windows_naming_rules, parse_device};
use file_engine::harness::disk_image::{parse_attach_output, MountedImage};
use file_engine::harness::faults::{plant, Fault};
use file_engine::harness::fixtures::{build, SabotagedEntry};
use file_engine::harness::parse::lines;
use file_engine::harness::recorder::{rows, Environment};
use file_engine::harness::runner::{observe_shape, WorkloadShape};
use file_engine::paths::FilePath;
use file_engine::planner::outcome::OperationOutcome;
use file_engine::profiler::Entry;
use file_engine::progress::Progress;

fn p(text: &str) -> FilePath {
    FilePath::new(text)
}

fn entry(name: &str) -> Entry {
    Entry {
        path: p(name),
        relative_path: p(name),
        size: 1,
        modified: None,
    }
}

fn env(source: bool, dest: bool, windows: bool) -> Environment {
    Environment {
        source_case_insensitive: source,
        dest_case_insensitive: dest,
        dest_windows_naming_rules: windows,
    }
}

#[test]
fn faults_are_planted_where_they_can_come_about() {
    assert_eq!(
        plant(&env(false, true, true), true),
        vec![
            Fault::PermissionDenied,
            Fault::DestExists,
            Fault::CaseCollision,
            Fault::ReservedName
        ]
    );
    assert_eq!(
        plant(&env(true, true, false), true),
        vec![Fault::PermissionDenied, Fault::DestExists]
    );
    assert_eq!(plant(&env(false, false, false), false), vec![Fault::DestExists]);
    assert_eq!(Fault::CaseCollision.expected_error_name(), "CaseCollision");
}

#[test]
fn fixtures_carry_their_fault() {
    let tree = build(&vec![
        Fault::PermissionDenied,
        Fault::CaseCollision,
        Fault::ReservedName,
    ]);
    assert_eq!(tree[0].file.text, "entry_0.txt");
    assert!(tree[0].sibling.is_none());
    assert_eq!(tree[1].sibling.as_ref().unwrap().text, "ENTRY_1.txt");
    assert_eq!(tree[1].sabotaged.relative_path.text, "entry_1.txt");
    assert_eq!(tree[2].file.text, "entry_2.txt");
    assert_eq!(tree[2].renamed.as_ref().unwrap().text, "CON");
    assert_eq!(tree[2].sabotaged.relative_path.text, "CON");
}

#[test]
fn faults_are_checked_against_the_first_failure_of_their_entry() {
    let mut outcome = OperationOutcome::default();
    outcome.failed = vec![
        (entry("a"), Error::PermissionDenied { path: p("a") }),
        (entry("b"), Error::DestExists { path: p("b") }),
        (entry("a"), Error::Cancelled),
    ];
    let results = check(
        &outcome,
        &vec![
            SabotagedEntry {
                relative_path: p("a"),
                fault: Fault::PermissionDenied,
            },
            SabotagedEntry {
                relative_path: p("b"),
                fault: Fault::CaseCollision,
            },
            SabotagedEntry {
                relative_path: p("c"),
                fault: Fault::ReservedName,
            },
        ],
    );
    let told: Vec<(&str, Option<&str>, bool)> = results
        .iter()
        .map(|r| (r.expected, r.observed, r.passed))
        .collect();
    assert_eq!(
        told,
        vec![
            ("PermissionDenied", Some("PermissionDenied"), true),
            ("CaseCollision", Some("DestExists"), false),
            ("ReservedName", None, false)
        ]
    );

    let made = rows(
        "linux",
        &env(true, false, true),
        Some(WorkloadShape::default()),
        17,
        &results,
    );
    assert_eq!(made.len(), 3);
    assert_eq!(made[1].os, "linux");
    assert_eq!(made[1].env, env(true, false, true));
    assert_eq!(made[1].relative_path, "b");
    assert_eq!(made[1].injected_fault, "CaseCollision");
    assert_eq!(made[1].observed_error, Some("DestExists"));
    assert!(!made[1].passed);
    assert_eq!(made[1].run_duration_ms, 17);
}

#[test]
fn errors_have_the_names_of_their_variants() {
    assert_eq!(
        error_variant_name(&Error::SourceNotFound { path: p("a") }),
        "SourceNotFound"
    );
    assert_eq!(
        error_variant_name(&Error::Io {
            path: p("a"),
            source: IoFailure {
                kind: IoKind::Other,
                message: String::new()
            }
        }),
        "Io"
    );
    assert_eq!(
        error_variant_name(&Error::RemoveCriteriaRequired),
        "RemoveCriteriaRequired"
    );
}

#[test]
fn the_shape_of_a_run_is_taken_from_its_plan() {
    let event = Progress::Planned {
        directories: 1,
        small_files: 2,
        small_bytes: 3,
        large_files: 4,
        large_bytes: 5,
        small_file_threshold: 6,
    };
    let shape = observe_shape(None, &event).unwrap();
    assert_eq!(
        shape,
        WorkloadShape {
            directories: 1,
            small_files: 2,
            small_bytes: 3,
            large_files: 4,
            large_bytes: 5,
            small_file_threshold: 6
        }
    );
    let later = observe_shape(Some(shape), &Progress::DirectoriesStarted { total: 1 });
    assert_eq!(later, Some(shape));
}

#[test]
fn the_mounted_volume_is_found_by_device_and_mount_point() {
    let output = "/dev/disk4          \tGUID_partition_scheme          \t\n\
                  /dev/disk4s1        \tWindows_NTFS                   \t/Volumes/FHD00042\r\n";
    let (device, mount) = parse_attach_output(output).unwrap();
    assert_eq!(device, "/dev/disk4s1");
    assert_eq!(mount.text, "/Volumes/FHD00042");
    assert_eq!(
        parse_attach_output("nothing here").unwrap_err(),
        "could not find a mounted volume in hdiutil attach output:\nnothing here"
    );
    let image = MountedImage {
        mount_point: p("/Volumes/X"),
        device,
        image_path: p("x.dmg"),
    };
    assert_eq!(image.path().text, "/Volumes/X");
}

#[test]
fn the_device_stands_in_the_second_line() {
    assert_eq!(
        parse_device("Filesystem 512-blocks\n/dev/disk1s5  976490576 /\n"),
        Some("/dev/disk1s5".to_string())
    );
    assert_eq!(parse_device("Filesystem\n"), None);
    assert_eq!(parse_device("Filesystem\n   \n"), None);
}

#[test]
fn the_kind_of_a_file_system_decides_about_naming_rules() {
    let exfat = "   Volume Name: X\n   File System Personality:  ExFAT\n   Type: y\n";
    assert!(has_windows_naming_rules(Some(exfat)));
    assert!(has_windows_naming_rules(Some(
        "File System Personality: NTFS"
    )));
    assert!(!has_windows_naming_rules(Some(
        "   File System Personality:  APFS\n   Note: fat\n"
    )));
    assert!(!has_windows_naming_rules(Some("")));
    assert!(!has_windows_naming_rules(None));
}

#[test]
fn faults_are_listed_by_what_they_depend_on() {
    assert_eq!(
        Fault::universal(),
        vec![Fault::PermissionDenied, Fault::DestExists]
    );
    assert_eq!(
        Fault::destination_conditional(),
        vec![Fault::CaseCollision, Fault::ReservedName]
    );
}

#[test]
fn a_carriage_return_is_left_out_only_before_a_line_feed() {
    let text: Vec<char> = "a\r\nb\rc\n\r\nd\r".chars().collect();
    let listed: Vec<String> = lines(&text)
        .into_iter()
        .map(|line| line.into_iter().collect())
        .collect();
    assert_eq!(listed, vec!["a", "b\rc", "", "d\r"]);
}
