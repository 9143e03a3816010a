use ftt::duration::DurationSpan;
use ftt::duration::TimeUnit;
use ftt::duration::parse_duration;
use ftt::duration::parse_i64;
use ftt::fingerprint::fingerprint;
use ftt::fingerprint::to_hex;
use ftt::ignore::IgnoreSet;
use ftt::ignore::parse_ignore_patterns;
use ftt::ignore::rule_match;
use ftt::ignore::should_ignore;
use ftt::paths::blob_path;
use ftt::paths::blobs_dir;
use ftt::paths::ftt_dir;
use ftt::paths::index_path;
use ftt::paths::is_inside_ftt_dir;
use ftt::paths::parent_dir;
use ftt::paths::relative_path;
use ftt::paths::snapshot_dir;
use ftt::paths::tags_path;
use ftt::strs::str_ends_with;
use ftt::strs::str_eq;
use ftt::strs::str_starts_with;

#[test]
fn fingerprint_is_deterministic() {
    let a = fingerprint(b"hello");
    let b = fingerprint(b"hello");
    assert_eq!(a, b);
    assert_ne!(a, fingerprint(b"hello!"));
}

#[test]
fn fingerprint_is_sha256_hex() {
    assert_eq!(
        fingerprint(b"hello"),
        "2cf24dba5fb0a30e26e83b2ac5b9e29e1b161e5c1fa7425e73043362938b9824"
    );
    assert_eq!(
        fingerprint(b""),
        "e3b0c44298fc1c149afbf4c8996fb92427ae41e4649b934ca495991b7852b855"
    );
}

#[test]
fn hex_rendering_is_exact() {
    assert_eq!(to_hex(&[]), "");
    assert_eq!(to_hex(&[0x00, 0xff, 0x1a]), "00ff1a");
}

#[test]
fn metadata_paths() {
    assert_eq!(ftt_dir("root"), "root/.ftt");
    assert_eq!(snapshot_dir("root"), "root/.ftt/snapshots");
    assert_eq!(index_path("root"), "root/.ftt/index.json");
    assert_eq!(tags_path("root"), "root/.ftt/tags.json");
    assert_eq!(blobs_dir("root"), "root/.ftt/blobs");
    assert_eq!(blob_path("root", "abc123"), "root/.ftt/blobs/abc123");
}

#[test]
fn relative_and_parent_paths() {
    assert_eq!(relative_path("root", "root/a/b.txt"), "a/b.txt");
    assert_eq!(parent_dir("a/b/c.txt"), "a/b");
    assert_eq!(parent_dir("a/b"), "a");
    assert_eq!(parent_dir("c.txt"), "");
    assert_eq!(parent_dir(""), "");
}

#[test]
fn inside_ftt_detection() {
    let with = vec!["a".to_string()];
    assert!(is_inside_ftt_dir("a/b/c", &with));
    assert!(is_inside_ftt_dir("a", &with));
    assert!(!is_inside_ftt_dir("ab", &with));
    assert!(!is_inside_ftt_dir("b/c", &with));
    let root_has = vec!["".to_string()];
    assert!(is_inside_ftt_dir("x/y", &root_has));
    let none: Vec<String> = vec![];
    assert!(!is_inside_ftt_dir("a/b", &none));
}

#[test]
fn string_helpers() {
    assert!(str_eq("abc", "abc"));
    assert!(!str_eq("abc", "abd"));
    assert!(!str_eq("abc", "ab"));
    assert!(str_starts_with("build/out", "build/"));
    assert!(!str_starts_with("bui", "build/"));
    assert!(str_ends_with("notes.log", "log"));
    assert!(!str_ends_with("notes.txt", "log"));
}

#[test]
fn ignore_rule_forms() {
    // directory-prefix rule
    assert!(rule_match("build/out.log", "build/"));
    assert!(!rule_match("src/build", "build/"));
    // extension rule: suffix of the part after the star-dot
    assert!(rule_match("notes.log", "*.log"));
    assert!(rule_match("deep/dir/x.log", "*.log"));
    assert!(!rule_match("notes.txt", "*.log"));
    // verbatim suffix rule
    assert!(rule_match("docs/README", "README"));
    assert!(!rule_match("README.md", "README"));
}

#[test]
fn ignore_file_parsing() {
    let set = parse_ignore_patterns("*.log\n\n# comment\n  build/  \nREADME");
    assert!(should_ignore("x.log", &set));
    assert!(should_ignore("build/a", &set));
    assert!(should_ignore("docs/README", &set));
    assert!(!should_ignore("# comment", &set));
    assert!(!should_ignore("keep.txt", &set));
    let empty = parse_ignore_patterns("");
    assert!(!should_ignore("anything", &empty));
}

#[test]
fn ignore_set_add() {
    let mut set = IgnoreSet::new();
    assert!(!should_ignore("a.tmp", &set));
    set.add("*.tmp".to_string());
    assert!(should_ignore("a.tmp", &set));
}

#[test]
fn duration_parsing() {
    assert_eq!(
        parse_duration("1d"),
        Some(DurationSpan { count: 1, unit: TimeUnit::Days })
    );
    assert_eq!(
        parse_duration("5h"),
        Some(DurationSpan { count: 5, unit: TimeUnit::Hours })
    );
    assert_eq!(
        parse_duration("30m"),
        Some(DurationSpan { count: 30, unit: TimeUnit::Minutes })
    );
    assert_eq!(
        parse_duration("-3h"),
        Some(DurationSpan { count: -3, unit: TimeUnit::Hours })
    );
    assert_eq!(parse_duration("10x"), None);
    assert_eq!(parse_duration("d"), None);
    assert_eq!(parse_duration("1.5d"), None);
    assert_eq!(parse_duration("99999999999999999999m"), None);
}

#[test]
fn integer_parsing() {
    assert_eq!(parse_i64("0"), Some(0));
    assert_eq!(parse_i64("42"), Some(42));
    assert_eq!(parse_i64("+7"), Some(7));
    assert_eq!(parse_i64("-42"), Some(-42));
    assert_eq!(parse_i64("9223372036854775807"), Some(i64::MAX));
    assert_eq!(parse_i64("9223372036854775808"), None);
    assert_eq!(parse_i64("-9223372036854775808"), Some(i64::MIN));
    assert_eq!(parse_i64("-9223372036854775809"), None);
    assert_eq!(parse_i64(""), None);
    assert_eq!(parse_i64("-"), None);
    assert_eq!(parse_i64("12a"), None);
}
