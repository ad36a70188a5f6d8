use sha2::Digest;
use std::io::Read;
use toast_tar::{
    aggregate, destination_path, extend, file_digest, fold_in_order, hash_bytes, hex_encode,
    is_executable, lex_less_eq, relative_path, sort_digests, Packer, TarError,
};

fn sha_hex(data: &[u8]) -> Vec<u8> {
    let raw = sha2::Sha256::digest(data);
    raw.iter().map(|b| format!("{:02x}", b)).collect::<String>().into_bytes()
}

fn sha_extend(d: &[u8], suffix: &[u8]) -> Vec<u8> {
    let mut joined = d.to_vec();
    joined.extend_from_slice(suffix);
    sha_hex(&joined)
}

fn expected_file_digest(path: &str, content: &str, executable: bool) -> Vec<u8> {
    let inner = sha_extend(&sha_hex(path.as_bytes()), &sha_hex(content.as_bytes()));
    sha_extend(&inner, if executable { b"+x" } else { b"-x" })
}

fn pack(destination: &str, files: &[(&str, &str, u32)]) -> (Vec<u8>, Vec<u8>) {
    let mut packer = Packer::new(destination.as_bytes());
    for (path, content, mode) in files {
        packer.check_interrupt(false).unwrap();
        packer.add_file(path.as_bytes(), content.as_bytes(), *mode).unwrap();
    }
    packer.finish().unwrap()
}

fn members(archive: &[u8]) -> Vec<(String, u32, Vec<u8>)> {
    let mut reader = tar::Archive::new(archive);
    let mut out = Vec::new();
    for entry in reader.entries().unwrap() {
        let mut entry = entry.unwrap();
        let path = entry.path().unwrap().to_string_lossy().into_owned();
        let mode = entry.header().mode().unwrap();
        let mut data = Vec::new();
        entry.read_to_end(&mut data).unwrap();
        out.push((path, mode, data));
    }
    out
}

#[test]
fn two_files_scenario() {
    let (archive, fingerprint) = pack("", &[("a/b.txt", "hi", 0o644), ("a/c.sh", "bye", 0o755)]);
    let m = members(&archive);
    assert_eq!(m.len(), 2);
    assert_eq!(m[0], ("a/b.txt".to_string(), 0o666, b"hi".to_vec()));
    assert_eq!(m[1], ("a/c.sh".to_string(), 0o777, b"bye".to_vec()));
    let mut digests = vec![
        expected_file_digest("a/b.txt", "hi", false),
        expected_file_digest("a/c.sh", "bye", true),
    ];
    digests.sort();
    let mut acc = sha_hex(b"");
    for d in &digests {
        acc = sha_extend(&acc, d);
    }
    assert_eq!(fingerprint, acc);
    assert_eq!(fingerprint.len(), 64);
}

#[test]
fn traversal_order_does_not_change_fingerprint() {
    let files = [("x/1", "one", 0o644), ("x/2", "two", 0o755), ("y/3", "three", 0o600)];
    let (_, first) = pack("", &files);
    let (_, second) = pack("", &[files[2], files[0], files[1]]);
    assert_eq!(first, second);
}

#[test]
fn each_change_changes_fingerprint() {
    let base = [("a", "content", 0o644), ("b", "other", 0o644)];
    let (_, f0) = pack("", &base);
    let (_, content) = pack("", &[("a", "Content", 0o644), base[1]]);
    let (_, exec) = pack("", &[("a", "content", 0o744), base[1]]);
    let (_, renamed) = pack("", &[("c", "content", 0o644), base[1]]);
    let (_, added) = pack("", &[base[0], base[1], ("d", "", 0o644)]);
    let (_, removed) = pack("", &[base[0]]);
    for other in [&content, &exec, &renamed, &added, &removed] {
        assert_ne!(&f0, other);
    }
}

#[test]
fn leading_separator_in_destination_root_is_ignored() {
    let files = [("a/b.txt", "hi", 0o644), ("c", "bye", 0o711)];
    let (archive_abs, fp_abs) = pack("/foo", &files);
    let (archive_rel, fp_rel) = pack("foo", &files);
    assert_eq!(archive_abs, archive_rel);
    assert_eq!(fp_abs, fp_rel);
    assert_eq!(members(&archive_rel)[0].0, "foo/a/b.txt");
}

#[test]
fn cancelled_before_start_is_interrupted() {
    let mut packer = Packer::new(b"dest");
    assert!(matches!(packer.check_interrupt(true), Err(TarError::Interrupted)));
    assert!(matches!(packer.add_file(b"a", b"x", 0o644), Err(TarError::Interrupted)));
    assert!(matches!(packer.check_interrupt(false), Err(TarError::Interrupted)));
    assert!(matches!(packer.finish(), Err(TarError::Interrupted)));
}

#[test]
fn rerun_is_byte_identical() {
    let files = [("a/b.txt", "hi", 0o644), ("a/c.sh", "bye", 0o755)];
    assert_eq!(pack("out", &files), pack("out", &files));
}

#[test]
fn empty_archive() {
    let (archive, fingerprint) = pack("", &[]);
    assert_eq!(archive, vec![0u8; 1024]);
    assert_eq!(fingerprint, sha_hex(b""));
    assert!(members(&archive).is_empty());
}

#[test]
fn member_is_padded_to_blocks() {
    let (archive, _) = pack("", &[("f", "hello", 0o644)]);
    assert_eq!(archive.len(), 512 + 512 + 1024);
    assert_eq!(&archive[512..517], b"hello");
}

#[test]
fn long_path_is_kept() {
    let long = "d/".repeat(80) + "file";
    let (archive, _) = pack("", &[(long.as_str(), "x", 0o644)]);
    assert_eq!(members(&archive)[0].0, long);
}

#[test]
fn equal_files_twice_are_both_counted() {
    let (_, once) = pack("", &[("a", "x", 0o644)]);
    let (_, twice) = pack("", &[("a", "x", 0o644), ("a", "x", 0o644)]);
    assert_ne!(once, twice);
}

#[test]
fn walked_entries_are_relativized() {
    let mut packer = Packer::new(b"/out");
    packer.add_entry(b"/src/root/a/b.txt", b"/src/root", b"hi", 0o644).unwrap();
    let err = packer.add_entry(b"/elsewhere/c", b"/src/root", b"", 0o644);
    match err {
        Err(TarError::Relativize { entry, root }) => {
            assert_eq!(entry, b"/elsewhere/c".to_vec());
            assert_eq!(root, b"/src/root".to_vec());
        }
        _ => panic!("expected a relativize error"),
    }
    let (archive, fingerprint) = packer.finish().unwrap();
    assert_eq!(members(&archive)[0].0, "out/a/b.txt");
    let mut acc = sha_hex(b"");
    acc = sha_extend(&acc, &expected_file_digest("a/b.txt", "hi", false));
    assert_eq!(fingerprint, acc);
}

#[test]
fn relative_path_cases() {
    assert_eq!(relative_path(b"/r/a/b", b"/r"), Some(b"a/b".to_vec()));
    assert_eq!(relative_path(b"/r", b"/r"), Some(Vec::new()));
    assert_eq!(relative_path(b"/ra/b", b"/r"), None);
    assert_eq!(relative_path(b"/a/b", b"/"), Some(b"a/b".to_vec()));
    assert_eq!(relative_path(b"/a", b"/a/b"), None);
}

#[test]
fn destination_path_cases() {
    assert_eq!(destination_path(b"/foo", b"a/b"), b"foo/a/b".to_vec());
    assert_eq!(destination_path(b"foo", b"a/b"), b"foo/a/b".to_vec());
    assert_eq!(destination_path(b"foo/", b"a"), b"foo/a".to_vec());
    assert_eq!(destination_path(b"", b"a"), b"a".to_vec());
    assert_eq!(destination_path(b"/", b"a"), b"a".to_vec());
    assert_eq!(destination_path(b"foo", b"/abs"), b"abs".to_vec());
}

#[test]
fn executable_bits() {
    assert!(!is_executable(0o644));
    assert!(is_executable(0o100));
    assert!(is_executable(0o010));
    assert!(is_executable(0o001));
    assert!(!is_executable(0o666));
    assert!(is_executable(0o100755));
}

#[test]
fn hex_and_hash_values() {
    assert_eq!(hex_encode(&[0x00, 0x0f, 0xa5, 0xff]), b"000fa5ff".to_vec());
    assert_eq!(
        hash_bytes(b"abc"),
        b"ba7816bf8f01cfea414140de5dae2223b00361a396177a9cb410ff61f20015ad".to_vec()
    );
    assert_eq!(extend(b"ab", b"c"), hash_bytes(b"abc"));
}

#[test]
fn file_digest_matches_formula() {
    assert_eq!(file_digest(b"a/c.sh", b"bye", true), expected_file_digest("a/c.sh", "bye", true));
    assert_ne!(file_digest(b"a/c.sh", b"bye", true), file_digest(b"a/c.sh", b"bye", false));
}

#[test]
fn sorting_and_folding() {
    let v = vec![b"b".to_vec(), b"ab".to_vec(), b"a".to_vec(), b"b".to_vec()];
    assert_eq!(
        sort_digests(v.clone()),
        vec![b"a".to_vec(), b"ab".to_vec(), b"b".to_vec(), b"b".to_vec()]
    );
    assert!(lex_less_eq(b"a", b"ab"));
    assert!(!lex_less_eq(b"b", b"ab"));
    let sorted = sort_digests(v.clone());
    assert_eq!(aggregate(v), fold_in_order(&sorted));
    let mut expected = sha_hex(b"");
    for d in &sorted {
        expected = sha_extend(&expected, d);
    }
    assert_eq!(fold_in_order(&sorted), expected);
}

#[test]
fn refused_member_path_leaves_packer_usable() {
    let mut packer = Packer::new(b"");
    assert!(matches!(packer.add_file(b"../x", b"no", 0o644), Err(TarError::Append(_))));
    assert!(matches!(packer.add_file(b"", b"no", 0o644), Err(TarError::Append(_))));
    packer.add_file(b"a", b"yes", 0o644).unwrap();
    let (archive, fingerprint) = packer.finish().unwrap();
    let m = members(&archive);
    assert_eq!(m.len(), 1);
    assert_eq!(m[0], ("a".to_string(), 0o666, b"yes".to_vec()));
    let expected = sha_extend(&sha_hex(b""), &expected_file_digest("a", "yes", false));
    assert_eq!(fingerprint, expected);
}
