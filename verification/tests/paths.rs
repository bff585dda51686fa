use shellx::locator::{candidate_paths, first_match};
use shellx::path_resolver::{
    corrected_path, corrected_path_entries, corrected_path_with_defaults, dedup_entries,
    default_system_dirs, join_path, split_path, UNIX_PATH_SEPARATOR, WINDOWS_PATH_SEPARATOR,
};

const SEP: u8 = UNIX_PATH_SEPARATOR;

fn entries(list: &[&[u8]]) -> Vec<Vec<u8>> {
    list.iter().map(|e| e.to_vec()).collect()
}

#[test]
fn split_and_join_round_trip() {
    let value = b"/usr/bin:/bin:/opt/x".to_vec();
    let parts = split_path(&value, SEP);
    assert_eq!(parts, entries(&[b"/usr/bin", b"/bin", b"/opt/x"]));
    assert_eq!(join_path(&parts, SEP), value);
}

#[test]
fn split_of_empty_value_is_one_empty_entry() {
    let parts = split_path(&Vec::new(), SEP);
    assert_eq!(parts, entries(&[b""]));
    assert_eq!(join_path(&parts, SEP), Vec::<u8>::new());
}

#[test]
fn dedup_keeps_first_occurrence_order() {
    let list = entries(&[b"/a", b"/b", b"/a", b"/c", b"/b"]);
    assert_eq!(dedup_entries(&list), entries(&[b"/a", b"/b", b"/c"]));
}

#[test]
fn corrected_path_merges_and_dedups() {
    let current = b"/usr/bin:/bin".to_vec();
    let shell = Some(b"/usr/bin:/opt/tool/bin".to_vec());
    let extra = entries(&[b"/bin", b"/opt/homebrew/bin"]);
    let merged = corrected_path(&current, &shell, &extra, SEP);
    assert_eq!(
        merged,
        b"/usr/bin:/bin:/opt/tool/bin:/opt/homebrew/bin".to_vec()
    );
}

#[test]
fn corrected_path_is_superset_without_duplicates() {
    let current = b"/usr/bin:/weird dir:/bin:/usr/bin".to_vec();
    let shell = Some(b"/bin:/extra".to_vec());
    let extra = entries(&[b"/usr/local/bin"]);
    let original = split_path(&current, SEP);
    let merged = corrected_path_entries(&current, &shell, &extra, SEP);
    // Superset: every original entry survives.
    for e in &original {
        assert!(merged.contains(e), "lost entry {:?}", e);
    }
    // No duplicate directory entries.
    for (i, a) in merged.iter().enumerate() {
        for b in &merged[i + 1..] {
            assert_ne!(a, b);
        }
    }
    // Nothing from nowhere.
    let shell_parts = split_path(shell.as_ref().unwrap(), SEP);
    for e in &merged {
        assert!(original.contains(e) || shell_parts.contains(e) || extra.contains(e));
    }
}

#[test]
fn corrected_path_without_probe_keeps_current_entries() {
    let current = b"/usr/bin:/bin".to_vec();
    let merged = corrected_path(&current, &None, &Vec::new(), SEP);
    assert_eq!(merged, current);
}

#[test]
fn default_dirs_are_well_known() {
    let dirs = default_system_dirs();
    assert_eq!(
        dirs,
        entries(&[
            b"/usr/local/bin",
            b"/usr/local/sbin",
            b"/usr/bin",
            b"/usr/sbin",
            b"/bin",
            b"/sbin",
            b"/opt/homebrew/bin",
            b"/opt/homebrew/sbin",
        ])
    );
    for d in &dirs {
        assert!(!d.is_empty());
        assert!(!d.contains(&SEP));
        assert!(!d.contains(&WINDOWS_PATH_SEPARATOR));
    }
}

#[test]
fn corrected_path_with_defaults_keeps_current_first() {
    let current = b"/my/tools:/usr/bin".to_vec();
    let merged = corrected_path_with_defaults(&current, &None);
    assert_eq!(
        merged,
        b"/my/tools:/usr/bin:/usr/local/bin:/usr/local/sbin:/usr/sbin:/bin:/sbin:/opt/homebrew/bin:/opt/homebrew/sbin"
            .to_vec()
    );
    // Superset of the inherited value, no entry twice.
    let parts = split_path(&merged, SEP);
    for e in split_path(&current, SEP) {
        assert!(parts.contains(&e));
    }
    for (i, a) in parts.iter().enumerate() {
        for b in &parts[i + 1..] {
            assert_ne!(a, b);
        }
    }
}

#[test]
fn candidates_follow_search_order() {
    let dirs = entries(&[b"/bin", b"/usr/bin"]);
    let name = b"git".to_vec();
    let cands = candidate_paths(&dirs, &name, &Vec::new());
    assert_eq!(cands, entries(&[b"/bin/git", b"/usr/bin/git"]));

    let suffixed = candidate_paths(&dirs, &name, &entries(&[b".exe", b".cmd"]));
    assert_eq!(
        suffixed,
        entries(&[
            b"/bin/git",
            b"/bin/git.exe",
            b"/bin/git.cmd",
            b"/usr/bin/git",
            b"/usr/bin/git.exe",
            b"/usr/bin/git.cmd",
        ])
    );
}

#[test]
fn candidate_basenames_match_the_query() {
    let dirs = entries(&[b"/deep/nested/dir", b"/bin"]);
    let name = b"tool".to_vec();
    let cands = candidate_paths(&dirs, &name, &entries(&[b".exe"]));
    for c in &cands {
        let base = c.rsplit(|&b| b == b'/').next().unwrap();
        assert!(
            base == b"tool" || base == b"tool.exe",
            "candidate {:?} does not answer to the query",
            c
        );
    }
}

#[test]
fn lookup_of_missing_command_reports_not_found() {
    let dirs = entries(&[b"/bin", b"/usr/bin"]);
    let cands = candidate_paths(&dirs, &b"nonexistent-binary-xyz".to_vec(), &Vec::new());
    // The host probed every candidate: none exists.
    let present = vec![false; cands.len()];
    assert_eq!(first_match(&cands, &present), None);
}

#[test]
fn lookup_returns_first_present_candidate() {
    let dirs = entries(&[b"/opt/a", b"/opt/b", b"/opt/c"]);
    let cands = candidate_paths(&dirs, &b"sh".to_vec(), &Vec::new());
    let present = vec![false, true, true];
    assert_eq!(first_match(&cands, &present), Some(1));
    assert_eq!(cands[1], b"/opt/b/sh".to_vec());
}
