//! The stamp of the build file.

use cust::stamp::{compute_stamp, write_if_changed, Stamp, WriteOutcome};

#[test]
fn stamp_changes_when_cmakelists_changes() {
    let a = compute_stamp(b"alpha", None);
    let b = compute_stamp(b"beta", None);
    assert_ne!(a, b, "different CMakeLists bytes must hash differently");
}

#[test]
fn stamp_changes_when_plugin_bytes_change_at_same_path() {
    let plugin_a: &[u8] = b"plugin contents v1";
    let plugin_b: &[u8] = b"plugin contents v2 \xff\x00\x01";
    let cmakelists = b"# CMakeLists\n";
    let s1 = compute_stamp(cmakelists, Some(plugin_a));
    let s2 = compute_stamp(cmakelists, Some(plugin_b));
    assert_ne!(s1, s2, "different plugin .so bytes must churn the stamp");
}

#[test]
fn stamp_stable_for_same_plugin_bytes() {
    let plugin: &[u8] = b"plugin contents";
    let s1 = compute_stamp(b"# CMakeLists\n", Some(plugin));
    let s2 = compute_stamp(b"# CMakeLists\n", Some(plugin));
    assert_eq!(s1, s2, "stamp must be stable for identical inputs");
}

#[test]
fn stamp_hex_round_trip() {
    let stamp = compute_stamp(b"hello", None);
    let hex = stamp.to_hex();
    assert_eq!(hex.len(), 64);
    assert!(hex
        .chars()
        .all(|c| c.is_ascii_hexdigit() && !c.is_ascii_uppercase()));
    let parsed = Stamp::from_hex(&hex).expect("round-trip parse");
    assert_eq!(parsed, stamp);
}

#[test]
fn stamp_from_hex_rejects_malformed() {
    assert!(Stamp::from_hex("").is_none(), "empty rejected");
    assert!(Stamp::from_hex("abc").is_none(), "too-short rejected");
    let mut sixty_four_nonhex = "z".repeat(64);
    assert!(
        Stamp::from_hex(&sixty_four_nonhex).is_none(),
        "non-hex rejected"
    );
    sixty_four_nonhex.push('a');
    assert!(
        Stamp::from_hex(&sixty_four_nonhex).is_none(),
        "too-long rejected"
    );
}

/// A build file and its stamp, held in memory.
struct Files {
    cmakelists: Option<Vec<u8>>,
    stamp: Option<String>,
}

impl Files {
    fn write(&mut self, bytes: &[u8], plugin: Option<&[u8]>) -> WriteOutcome {
        let w = write_if_changed(self.cmakelists.is_some(), bytes, self.stamp.as_deref(), plugin);
        if w.outcome == WriteOutcome::Wrote {
            self.cmakelists = Some(bytes.to_vec());
            self.stamp = Some(w.stamp.to_hex());
        }
        w.outcome
    }
}

#[test]
fn write_if_changed_writes_first_time_and_skips_second() {
    let mut files = Files {
        cmakelists: None,
        stamp: None,
    };
    let bytes = b"# v1\n";
    assert_eq!(files.write(bytes, None), WriteOutcome::Wrote, "first call writes");
    assert!(files.cmakelists.is_some(), "CMakeLists materialised");
    assert!(files.stamp.is_some(), "stamp materialised");
    assert_eq!(
        files.write(bytes, None),
        WriteOutcome::Unchanged,
        "second identical call is a no-op"
    );
    assert_eq!(
        files.write(b"# v2\n", None),
        WriteOutcome::Wrote,
        "byte change triggers rewrite"
    );
    assert_eq!(files.cmakelists.unwrap(), b"# v2\n");
}

#[test]
fn write_if_changed_recovers_from_corrupt_stamp() {
    let mut files = Files {
        cmakelists: Some(b"# v1\n".to_vec()),
        stamp: Some("not a real hex stamp".to_string()),
    };
    assert_eq!(
        files.write(b"# v1\n", None),
        WriteOutcome::Wrote,
        "corrupt stamp forces a rewrite (safe default)"
    );
}

#[test]
fn write_if_changed_rewrites_when_cmakelists_missing() {
    let bytes = b"# v1\n";
    let stamp = compute_stamp(bytes, None);
    let mut files = Files {
        cmakelists: None,
        stamp: Some(stamp.to_hex()),
    };
    assert_eq!(files.write(bytes, None), WriteOutcome::Wrote);
    assert!(files.cmakelists.is_some());
}

#[test]
fn a_new_plugin_has_the_build_file_written_again() {
    let mut files = Files {
        cmakelists: None,
        stamp: None,
    };
    let old: &[u8] = b"one";
    let new: &[u8] = b"two";
    assert_eq!(files.write(b"# v1\n", Some(old)), WriteOutcome::Wrote);
    assert_eq!(files.write(b"# v1\n", Some(old)), WriteOutcome::Unchanged);
    assert_eq!(files.write(b"# v1\n", Some(new)), WriteOutcome::Wrote);
    assert_eq!(files.write(b"# v1\n", None), WriteOutcome::Wrote);
}

#[test]
fn digests_are_those_of_sha_256() {
    // Twice the digest of "hello world".
    let stamp = compute_stamp(b"hello world", None);
    assert_eq!(
        stamp.to_hex(),
        "bc62d4b80d9e36da29c16c5d4d9f11731f36052c72401a76c23c0fb5a9b74423"
    );
    let shout = stamp.to_hex().to_uppercase();
    assert!(Stamp::from_hex(&shout).is_none());
    assert!(Stamp::from_hex(&format!("{}\n", stamp.to_hex())).is_none());
}
