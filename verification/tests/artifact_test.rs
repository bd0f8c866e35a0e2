use super_core::artifact::{
    backup_name, detect_archive_kind, download_name, extract_dir_name, next_retry, pick_payload,
    plan_tar_extraction, staging_name, validate_member_path, verify_checksum, ArchiveKind,
    ArchiveMember, ArtifactError, ExtractBudget, MemberType, RetryStep, MAX_EXTRACT_BYTES,
};
use super_core::artifact::{plan_zip_extraction, ZipMember};

fn names(v: &[&str]) -> Vec<String> {
    v.iter().map(|s| s.to_string()).collect()
}

#[test]
fn retry_backoff_then_give_up() {
    assert_eq!(next_retry(0, false), RetryStep::Retry { attempt: 1, wait_secs: 1 });
    assert_eq!(next_retry(1, false), RetryStep::Retry { attempt: 2, wait_secs: 2 });
    assert_eq!(next_retry(2, false), RetryStep::Retry { attempt: 3, wait_secs: 4 });
    assert_eq!(next_retry(3, false), RetryStep::GiveUp { attempts: 4 });
    assert_eq!(next_retry(0, true), RetryStep::GiveUp { attempts: 1 });
}

#[test]
fn checksum_must_match() {
    assert!(verify_checksum("aa", "aa").is_ok());
    let e = verify_checksum("bb", "aa").unwrap_err();
    assert_eq!(e.message(), "Checksum mismatch! Expected: aa, Got: bb");
}

#[test]
fn archive_kind_by_name_then_magic() {
    assert_eq!(detect_archive_kind(Some("APP.TAR.GZ"), &[]).unwrap(), ArchiveKind::TarGz);
    assert_eq!(detect_archive_kind(Some("app.tgz"), &[]).unwrap(), ArchiveKind::TarGz);
    assert_eq!(detect_archive_kind(Some("app.tar"), &[]).unwrap(), ArchiveKind::Tar);
    assert_eq!(detect_archive_kind(Some("app.Zip"), &[]).unwrap(), ArchiveKind::Zip);
    assert_eq!(detect_archive_kind(Some("app.download"), &[0x1f, 0x8b, 0, 0]).unwrap(), ArchiveKind::TarGz);
    assert_eq!(detect_archive_kind(Some("app.download"), b"PK\x03\x04").unwrap(), ArchiveKind::Zip);
    let e = detect_archive_kind(Some("app.bin"), b"ELF").unwrap_err();
    assert_eq!(
        e.message(),
        "Unsupported OTA archive format for Some(\"app.bin\"); use .tar.gz, .tgz, .tar, or .zip"
    );
}

#[test]
fn member_paths() {
    assert_eq!(validate_member_path("./bin/app").unwrap(), "bin/app");
    assert_eq!(validate_member_path("././app").unwrap(), "app");
    assert_eq!(validate_member_path("a/./b").unwrap(), "a/./b");
    let e = validate_member_path("../evil").unwrap_err();
    assert!(e.message().contains("rejected"));
    assert!(matches!(validate_member_path("a/../../x"), Err(ArtifactError::MemberRejected { .. })));
    let e = validate_member_path("/etc/passwd").unwrap_err();
    assert_eq!(e.message(), "archive member must be relative: \"/etc/passwd\"");
    assert!(validate_member_path("dir/").is_err());
    assert!(validate_member_path("./").is_err());
    assert!(validate_member_path("a..b").is_ok());
}

#[test]
fn extraction_budget() {
    let mut b = ExtractBudget::new();
    assert!(b.admit_file(MAX_EXTRACT_BYTES).is_ok());
    assert!(matches!(b.admit_file(1), Err(ArtifactError::TooLarge)));
    let mut b = ExtractBudget::new();
    for _ in 0..256 {
        assert!(b.admit_file(0).is_ok());
    }
    let e = b.admit_file(0).unwrap_err();
    assert_eq!(e.message(), "archive exceeds max file count (256)");
}

#[test]
fn payload_choice() {
    assert_eq!(pick_payload(&names(&["README.txt", "edge-agent", "notes"]), "edge-agent").unwrap(), 1);
    assert_eq!(pick_payload(&names(&["only.bin"]), "app").unwrap(), 0);
    let e = pick_payload(&names(&["a.bin", "b.bin"]), "app").unwrap_err();
    assert!(e.message().contains("none named"));
    assert_eq!(
        e.message(),
        "archive has 2 files and none named \"app\"; set destination basename to match or ship a single-file archive"
    );
    let e = pick_payload(&names(&["app", "app"]), "app").unwrap_err();
    assert!(matches!(e, ArtifactError::AmbiguousPayload { .. }));
    assert!(matches!(pick_payload(&vec![], "app"), Err(ArtifactError::NoFiles)));
}

#[test]
fn transaction_file_names() {
    assert_eq!(download_name("app"), "app.download");
    assert_eq!(staging_name("app"), "app.new");
    assert_eq!(backup_name("app"), "app.bak");
    assert_eq!(extract_dir_name("app.new"), ".app.new.extract");
}

fn member(kind: MemberType, path: &str, size: u64) -> ArchiveMember {
    ArchiveMember { kind, type_text: format!("{:?}", kind), path: path.to_string(), size }
}

#[test]
fn tar_plan_skips_directories_and_strips_dot_slash() {
    let ms = vec![
        member(MemberType::Directory, "./bin/", 0),
        member(MemberType::Regular, "./bin/app", 10),
        member(MemberType::Regular, "README", 5),
    ];
    let plan = plan_tar_extraction(&ms).unwrap();
    assert_eq!(plan, vec![("bin/app".to_string(), 10), ("README".to_string(), 5)]);
}

#[test]
fn tar_plan_refuses_links_traversal_and_other_types() {
    let e = plan_tar_extraction(&vec![member(MemberType::Link, "app", 0)]).unwrap_err();
    assert_eq!(e.message(), "archive must not contain symlinks or hard links");
    let mut odd = member(MemberType::Other, "fifo", 0);
    odd.type_text = "Fifo".to_string();
    let e = plan_tar_extraction(&vec![odd]).unwrap_err();
    assert_eq!(e.message(), "unsupported archive entry type: Fifo");
    let e = plan_tar_extraction(&vec![member(MemberType::Regular, "../../etc/evil", 3)]).unwrap_err();
    assert!(e.message().contains("rejected"), "{}", e.message());
    let e = plan_tar_extraction(&vec![member(MemberType::Regular, "/etc/evil", 3)]).unwrap_err();
    assert!(e.message().contains("relative"), "{}", e.message());
}

#[test]
fn tar_plan_enforces_file_count_and_size_budget() {
    let files = |n: usize| -> Vec<ArchiveMember> {
        (0..n).map(|i| member(MemberType::Regular, &format!("f{i}"), 1)).collect()
    };
    assert!(matches!(plan_tar_extraction(&files(257)), Err(ArtifactError::TooManyFiles)));
    assert_eq!(plan_tar_extraction(&files(256)).unwrap().len(), 256);
    let big = vec![
        member(MemberType::Regular, "a", 536_870_912),
        member(MemberType::Regular, "b", 1),
    ];
    assert!(matches!(plan_tar_extraction(&big), Err(ArtifactError::TooLarge)));
    let one = vec![member(MemberType::Regular, "a", 536_870_912)];
    assert_eq!(plan_tar_extraction(&one).unwrap().len(), 1);
}

fn zip_member(name: &str, enclosed: Option<&str>, is_dir: bool, size: u64) -> ZipMember {
    ZipMember { name: name.to_string(), enclosed: enclosed.map(|s| s.to_string()), is_dir, size }
}

#[test]
fn zip_plan_keeps_files_in_order_and_skips_directories() {
    let ms = vec![
        zip_member("notes/", Some("notes/"), true, 0),
        zip_member("notes/README.txt", Some("notes/README.txt"), false, 4),
        zip_member("edge-agent", Some("edge-agent"), false, 20),
    ];
    let plan = plan_zip_extraction(&ms).unwrap();
    assert_eq!(plan, vec![("notes/README.txt".to_string(), 4), ("edge-agent".to_string(), 20)]);
}

#[test]
fn zip_plan_refuses_unsafe_names_and_budget() {
    let e = plan_zip_extraction(&vec![zip_member("../evil", None, false, 1)]).unwrap_err();
    assert_eq!(e.message(), "zip member path rejected: \"../evil\"");
    let e = plan_zip_extraction(&vec![zip_member("x/", Some("x/"), false, 1)]).unwrap_err();
    assert!(e.message().contains("rejected"), "{}", e.message());
    let many: Vec<ZipMember> = (0..257).map(|i| zip_member(&format!("f{i}"), Some(&format!("f{i}")), false, 1)).collect();
    assert!(matches!(plan_zip_extraction(&many), Err(ArtifactError::TooManyFiles)));
    let big = vec![zip_member("a", Some("a"), false, MAX_EXTRACT_BYTES + 1)];
    assert!(matches!(plan_zip_extraction(&big), Err(ArtifactError::TooLarge)));
}
