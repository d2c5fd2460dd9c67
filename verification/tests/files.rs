use ttk::build_and_sign::{check_paths as build_check, clean_dir_name, created_report, zip_entry, zip_path, BuildAndSignArgs};
use ttk::copy_clean::{check_paths, entry_action, skip_dirs, skip_exts, CopyAction, CopyCleanArgs};
use ttk::deleter;
use ttk::rename;
use ttk::sign::{check_folder, file_lines, listing, md5_hex, md5_listing_path, sha1_hex, sha1_listing_path};

fn paths(dir: &str, names: &[&str]) -> Vec<String> {
    names.iter().map(|n| format!("{}/{}", dir, n)).collect()
}

#[test]
fn test_deleter_even_deletes_even_indices() {
    let entries = paths("/d", &["c.txt", "a.txt", "e.txt", "b.txt", "d.txt"]);
    let plan = deleter::run("/d", &Ok(entries), true).unwrap();
    let deleted: Vec<(&str, bool)> = plan.iter().map(|d| (d.path.as_str(), d.delete)).collect();
    assert_eq!(
        deleted,
        vec![("/d/a.txt", true), ("/d/b.txt", false), ("/d/c.txt", true), ("/d/d.txt", false), ("/d/e.txt", true)]
    );
}

#[test]
fn test_deleter_odd_deletes_odd_indices() {
    let entries = paths("/d", &["a.txt", "b.txt", "c.txt", "d.txt"]);
    let plan = deleter::run("/d", &Ok(entries), false).unwrap();
    let deleted: Vec<bool> = plan.iter().map(|d| d.delete).collect();
    assert_eq!(deleted, vec![false, true, false, true]);
}

#[test]
fn test_deleter_missing_dir_returns_err() {
    let result = deleter::run("/nonexistent/dir", &Err("No such file or directory (os error 2)".to_string()), true);
    assert!(result.is_err());
    assert_eq!(
        result.err().unwrap(),
        "error reading directory /nonexistent/dir: No such file or directory (os error 2)"
    );
}

#[test]
fn test_rename_sequence_basic() {
    let entries = paths("/d", &["c.txt", "a.txt", "b.txt"]);
    let plan = rename::run("/d", "file", &Ok(entries)).unwrap();
    let moves: Vec<(&str, &str)> = plan.iter().map(|r| (r.from.as_str(), r.to.as_str())).collect();
    assert_eq!(
        moves,
        vec![("/d/a.txt", "/d/file0.txt"), ("/d/b.txt", "/d/file1.txt"), ("/d/c.txt", "/d/file2.txt")]
    );
}

#[test]
fn test_rename_pads_index() {
    let names: Vec<String> = (0..10).map(|i| format!("f{}.txt", i)).collect();
    let entries: Vec<String> = names.iter().map(|n| format!("/d/{}", n)).collect();
    let plan = rename::run("/d", "x", &Ok(entries)).unwrap();
    let targets: Vec<&str> = plan.iter().map(|r| r.to.as_str()).collect();
    assert!(targets.contains(&"/d/x00.txt"));
    assert!(targets.contains(&"/d/x09.txt"));
}

#[test]
fn test_rename_preserves_extension() {
    let entries = paths("/d", &["photo.jpg", "doc.pdf"]);
    let plan = rename::run("/d", "item", &Ok(entries)).unwrap();
    assert!(plan.iter().any(|r| r.to.ends_with(".jpg")));
    assert!(plan.iter().any(|r| r.to.ends_with(".pdf")));
    assert_eq!(plan[0].to, "/d/item0.pdf");
    assert_eq!(plan[1].to, "/d/item1.jpg");
}

#[test]
fn rename_without_extension_and_hidden_files() {
    let entries = paths("d", &["README", ".env", "a."]);
    let plan = rename::run("d", "n", &Ok(entries)).unwrap();
    let targets: Vec<&str> = plan.iter().map(|r| r.to.as_str()).collect();
    assert_eq!(targets, vec!["d/n0", "d/n1", "d/n2."]);
    assert_eq!(rename::check_target("d/a", "d/b", true).unwrap_err(), "collision: d/b already exists");
    assert!(rename::check_target("d/a", "d/a", true).is_ok());
    assert!(rename::check_target("d/a", "d/b", false).is_ok());
}

#[test]
fn test_sign_missing_folder_returns_err() {
    let result = check_folder("/tmp/ttk-test/nope", false);
    assert!(result.is_err());
    assert!(result.unwrap_err().contains("folder not found"));
}

#[test]
fn test_sign_produces_md5_sha1_files() {
    let (m, s) = file_lines("/src/hello.txt", b"hello");
    let md5_content = listing(&vec![m]);
    let sha1_content = listing(&vec![s]);
    assert!(md5_content.contains("  "));
    assert!(sha1_content.contains("  "));
    assert!(md5_content.ends_with('\n'));
    assert!(sha1_content.ends_with('\n'));
    assert_eq!(md5_listing_path("/out/checksums"), "/out/checksums.md5");
    assert_eq!(sha1_listing_path("/out/checksums"), "/out/checksums.sha1");
}

#[test]
fn test_sign_checksum_format_two_spaces() {
    let (m, _) = file_lines("/src/a.bin", b"abc");
    let md5_content = listing(&vec![m]);
    let line = md5_content.lines().next().unwrap();
    let parts: Vec<&str> = line.splitn(2, "  ").collect();
    assert_eq!(parts.len(), 2, "must have exactly two spaces between hash and path");
    assert_eq!(parts[0].len(), 32, "md5 hash must be 32 hex chars");
}

#[test]
fn test_sign_sha1_hash_length() {
    let (_, s) = file_lines("/src/b.bin", b"data");
    let sha1_content = listing(&vec![s]);
    let line = sha1_content.lines().next().unwrap();
    let hash = line.splitn(2, "  ").next().unwrap();
    assert_eq!(hash.len(), 40, "sha1 hash must be 40 hex chars");
}

#[test]
fn digests_of_known_texts() {
    assert_eq!(md5_hex(b"hello"), "5d41402abc4b2a76b9719d911017c592");
    assert_eq!(sha1_hex(b"hello"), "aaf4c61ddcc5e8a2dabede0f3b482cd9aea9434d");
    assert_eq!(md5_hex(b""), "d41d8cd98f00b204e9800998ecf8427e");
    let (m, s) = file_lines("x y", b"abc");
    assert_eq!(m, "900150983cd24fb0d6963f7d28e17f72  x y");
    assert_eq!(s, "a9993e364706816aba3e25717850c26c9cd0d89d  x y");
    assert_eq!(listing(&vec!["a".to_string(), "b".to_string()]), "a\nb\n");
    assert_eq!(listing(&vec![]), "\n");
}

#[test]
fn test_copy_clean_missing_source_err() {
    let args = CopyCleanArgs { source: "/tmp/t/nope".to_string(), dest: "/tmp/t/out".to_string() };
    let result = check_paths(&args, false, false);
    assert!(result.is_err());
    assert!(result.unwrap_err().contains("source not found"));
}

#[test]
fn test_copy_clean_dest_exists_err() {
    let args = CopyCleanArgs { source: "/tmp/s".to_string(), dest: "/tmp/d".to_string() };
    let result = check_paths(&args, true, true);
    assert!(result.is_err());
    assert!(result.unwrap_err().contains("destination already exists"));
}

fn action(rel: &str, is_dir: bool, is_symlink: bool) -> CopyAction {
    entry_action("/out", rel, false, is_symlink, is_dir, &skip_dirs(), &skip_exts())
}

fn is_skip(a: &CopyAction) -> bool {
    matches!(a, CopyAction::Skip)
}

fn copy_target(a: &CopyAction) -> Option<String> {
    match a {
        CopyAction::CopyFile { target, .. } => Some(target.clone()),
        _ => None,
    }
}

#[test]
fn test_copy_clean_skips_node_modules() {
    assert!(is_skip(&action("node_modules", true, false)));
    assert!(is_skip(&action("node_modules/pkg", false, false)));
    assert_eq!(copy_target(&action("main.js", false, false)), Some("/out/main.js".to_string()));
}

#[test]
fn test_copy_clean_skips_checksum_files() {
    assert!(is_skip(&action("out.md5", false, false)));
    assert!(is_skip(&action("out.sha1", false, false)));
    assert!(is_skip(&action("arch.zip", false, false)));
    assert!(is_skip(&action("arch.ZIP", false, false)));
    assert_eq!(copy_target(&action("app.js", false, false)), Some("/out/app.js".to_string()));
}

#[test]
fn test_copy_clean_no_follow_symlinks() {
    assert!(is_skip(&action("link.txt", false, true)));
    assert!(copy_target(&action("real.txt", false, false)).is_some());
}

#[test]
fn test_copy_clean_preserves_subdir_structure() {
    match action("sub", true, false) {
        CopyAction::CreateDir(t) => assert_eq!(t, "/out/sub"),
        _ => panic!("directory expected"),
    }
    match action("sub/nested.txt", false, false) {
        CopyAction::CopyFile { target, parent } => {
            assert_eq!(target, "/out/sub/nested.txt");
            assert_eq!(parent, Some("/out/sub".to_string()));
        }
        _ => panic!("copy expected"),
    }
    assert!(matches!(entry_action("/out", "", true, false, true, &skip_dirs(), &skip_exts()), CopyAction::CreateDest));
    assert!(is_skip(&action("a/.git/config", false, false)));
    assert!(is_skip(&action("dist", false, false)));
    assert!(copy_target(&action("distro/x", false, false)).is_some());
}

#[test]
fn test_build_and_sign_missing_source_err() {
    let args = BuildAndSignArgs { source: "/tmp/t/nope".to_string(), prefix: "/tmp/t/out".to_string() };
    let result = build_check(&args, false, false);
    assert!(result.is_err());
    assert!(result.unwrap_err().contains("source not found"));
}

#[test]
fn test_build_and_sign_clean_dir_exists_err() {
    let args = BuildAndSignArgs { source: "/tmp/s".to_string(), prefix: "/tmp/t/out".to_string() };
    assert_eq!(clean_dir_name(&args.prefix), "/tmp/t/out-clean");
    let result = build_check(&args, true, true);
    assert!(result.is_err());
    assert!(result.unwrap_err().contains("already exists"));
}

#[test]
fn test_build_and_sign_produces_artifacts() {
    assert_eq!(zip_path("/o/release"), "/o/release.zip");
    assert_eq!(md5_listing_path("/o/release"), "/o/release.md5");
    assert_eq!(sha1_listing_path("/o/release"), "/o/release.sha1");
    assert_eq!(created_report("r"), "created r.zip, r.md5, r.sha1");
}

#[test]
fn zip_entries() {
    assert_eq!(zip_entry("", true), None);
    assert_eq!(zip_entry("src", true), Some("src/".to_string()));
    assert_eq!(zip_entry("src/main.rs", false), Some("src/main.rs".to_string()));
}

fn names(v: &[&str]) -> Vec<String> {
    v.iter().map(|s| s.to_string()).collect()
}

#[test]
fn test_copy_clean_copies_files() {
    let none: Vec<String> = vec![];
    let a = entry_action("/out", "a.txt", false, false, false, &none, &none);
    let b = entry_action("/out", "b.txt", false, false, false, &none, &none);
    assert_eq!(copy_target(&a), Some("/out/a.txt".to_string()));
    assert_eq!(copy_target(&b), Some("/out/b.txt".to_string()));
}

#[test]
fn test_copy_clean_skips_dirs() {
    let dirs = names(&["node_modules"]);
    let none: Vec<String> = vec![];
    assert!(is_skip(&entry_action("/out", "node_modules", false, false, true, &dirs, &none)));
    assert!(is_skip(&entry_action("/out", "node_modules/pkg.js", false, false, false, &dirs, &none)));
    assert_eq!(copy_target(&entry_action("/out", "keep.txt", false, false, false, &dirs, &none)), Some("/out/keep.txt".to_string()));
}

#[test]
fn test_copy_clean_skips_extensions() {
    let exts = names(&["md5", "zip"]);
    let none: Vec<String> = vec![];
    assert!(is_skip(&entry_action("/out", "file.md5", false, false, false, &none, &exts)));
    assert!(is_skip(&entry_action("/out", "file.zip", false, false, false, &none, &exts)));
    assert!(copy_target(&entry_action("/out", "main.rs", false, false, false, &none, &exts)).is_some());
}
