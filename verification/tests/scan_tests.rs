//! The multi-root scan and the fingerprint engine over snapshots.
use ghost_meta::digest::compute_fingerprint_hash;
use ghost_meta::fingerprint::build_fingerprint;
use ghost_meta::paths::{normalize_path_string, unique_sorted_additional_folders};
use ghost_meta::scan::{scan_ghosts_internal, scan_ghosts_with_fingerprint_internal};
use ghost_meta::snapshot::{
    DescriptState, DirListing, EntrySnapshot, ExtraRoot, MtimeState, ParentSnapshot, ScanError,
};
use ghost_meta::thumbnail::ShellSnapshot;

use sha2::Digest;

fn empty_shell() -> ShellSnapshot {
    ShellSnapshot {
        master_path: String::new(),
        listing: None,
        descript_bytes: None,
        thumbnail_path: String::new(),
        thumbnail_exists: false,
        thumbnail_bytes: None,
    }
}

fn package_entry(name: &str, mtime: u128, descript: &str, descript_mtime: u128) -> EntrySnapshot {
    EntrySnapshot {
        directory_name: name.to_string(),
        path: format!("/roots/{}", name),
        is_dir: true,
        mtime: MtimeState::Known(mtime),
        descript: DescriptState::Found {
            mtime: MtimeState::Known(descript_mtime),
            bytes: Some(descript.as_bytes().to_vec()),
        },
        shell: empty_shell(),
    }
}

fn root_with(entries: Vec<EntrySnapshot>) -> ParentSnapshot {
    ParentSnapshot::Dir { mtime: MtimeState::Known(1), listing: DirListing::Entries(entries) }
}

fn extra(source: &str, normalized: &str, snapshot: ParentSnapshot) -> ExtraRoot {
    ExtraRoot {
        source: source.to_string(),
        normalized: normalized.to_string(),
        snapshot,
    }
}

fn pair(s: &str) -> (String, String) {
    (s.to_string(), s.to_string())
}

#[test]
fn unique_sorted_additional_folders_dedupes_by_normalized_path() {
    let folders = vec![
        pair("C:\\Ghosts\\Extra"),
        pair("c:/ghosts/extra"),
        pair("C:/Ghosts/Another"),
    ];

    let actual = unique_sorted_additional_folders(&folders);

    assert_eq!(actual.len(), 2);
    assert_eq!(actual[0].1, "c:/ghosts/another");
    assert_eq!(actual[1].1, "c:/ghosts/extra");
}

#[test]
fn unique_sorted_keeps_the_first_spelling() {
    let folders = vec![pair("C:\\Ghosts\\Extra"), pair("c:/ghosts/extra")];
    let actual = unique_sorted_additional_folders(&folders);
    assert_eq!(actual.len(), 1);
    assert_eq!(actual[0].0, "C:\\Ghosts\\Extra");
}

#[test]
fn unique_sorted_of_no_folders_is_empty() {
    let actual = unique_sorted_additional_folders(&Vec::new());
    assert!(actual.is_empty());
}

#[test]
fn normalize_unifies_separators_and_case() {
    assert_eq!(normalize_path_string("C:\\Ghosts\\Extra"), "c:/ghosts/extra");
}

#[test]
fn scan_collects_sources_and_sorts_by_name() {
    let ssp = root_with(vec![package_entry("ssp_dir", 10, "name,zulu\ncharset,UTF-8\n", 11)]);
    let extras = vec![
        extra(
            "/roots/b",
            "/roots/b",
            root_with(vec![package_entry("extra_b", 20, "name,bravo\ncharset,UTF-8\n", 21)]),
        ),
        extra(
            "/roots/a",
            "/roots/a",
            root_with(vec![package_entry("extra_a", 30, "name,Alpha\ncharset,UTF-8\n", 31)]),
        ),
    ];

    let (ghosts, fingerprint) =
        scan_ghosts_with_fingerprint_internal("/ssp/ghost", &ssp, &extras).unwrap();

    assert_eq!(ghosts.len(), 3);
    assert_eq!(ghosts[0].name, "Alpha");
    assert_eq!(ghosts[1].name, "bravo");
    assert_eq!(ghosts[2].name, "zulu");
    assert_eq!(ghosts[2].source, "ssp");
    assert_eq!(ghosts[1].source, "/roots/b");
    assert_eq!(ghosts[0].source, "/roots/a");
    assert_eq!(fingerprint.len(), 64);
}

#[test]
fn scan_falls_back_to_directory_name_without_name_field() {
    let ssp = root_with(vec![package_entry(
        "fallback_dir",
        10,
        "charset,UTF-8\n// no name field\n",
        11,
    )]);
    let (ghosts, _) = scan_ghosts_with_fingerprint_internal("/ssp/ghost", &ssp, &vec![]).unwrap();
    assert_eq!(ghosts.len(), 1);
    assert_eq!(ghosts[0].name, "fallback_dir");
    assert_eq!(ghosts[0].source, "ssp");
    assert_eq!(ghosts[0].craftman, "");
}

#[test]
fn scan_reads_craftman_and_thumbnail_fields() {
    let mut e = package_entry("full", 10, "charset,UTF-8\nname,Full\ncraftman,Maker\n", 11);
    e.shell = ShellSnapshot {
        master_path: "/roots/full/shell/master".to_string(),
        listing: Some(vec!["surface0.png".to_string()]),
        descript_bytes: Some(b"charset,UTF-8\nseriko.use_self_alpha,1\n".to_vec()),
        thumbnail_path: "/roots/full/thumbnail.png".to_string(),
        thumbnail_exists: false,
        thumbnail_bytes: None,
    };
    let ssp = root_with(vec![e]);
    let (ghosts, _) = scan_ghosts_with_fingerprint_internal("/ssp/ghost", &ssp, &vec![]).unwrap();
    assert_eq!(ghosts.len(), 1);
    assert_eq!(ghosts[0].craftman, "Maker");
    assert_eq!(ghosts[0].thumbnail_path, "/roots/full/shell/master/surface0.png");
    assert!(ghosts[0].thumbnail_use_self_alpha);
    assert_eq!(ghosts[0].thumbnail_kind, "surface");
    assert_eq!(ghosts[0].diff_fingerprint.len(), 64);
}

#[test]
fn entries_without_descriptor_are_skipped() {
    let mut bare = package_entry("bare", 5, "", 6);
    bare.descript = DescriptState::Missing;
    let ssp = root_with(vec![
        bare,
        package_entry("valid_ghost", 10, "charset,UTF-8\nname,Valid\n", 11),
    ]);
    let (ghosts, _) = scan_ghosts_with_fingerprint_internal("/ssp/ghost", &ssp, &vec![]).unwrap();
    assert_eq!(ghosts.len(), 1);
    assert_eq!(ghosts[0].name, "Valid");
}

#[test]
fn file_entries_are_skipped() {
    let mut file = package_entry("some_file.txt", 5, "charset,UTF-8\n", 6);
    file.is_dir = false;
    let ssp = root_with(vec![
        file,
        package_entry("valid_ghost", 10, "charset,UTF-8\nname,Valid\n", 11),
    ]);
    let (ghosts, _) = scan_ghosts_with_fingerprint_internal("/ssp/ghost", &ssp, &vec![]).unwrap();
    assert_eq!(ghosts.len(), 1);
}

#[test]
fn empty_mandatory_root_yields_empty_list_and_a_fingerprint() {
    let ssp = root_with(vec![]);
    let (ghosts, fingerprint) =
        scan_ghosts_with_fingerprint_internal("/ssp/ghost", &ssp, &vec![]).unwrap();
    assert!(ghosts.is_empty());
    assert_eq!(fingerprint.len(), 64);
}

#[test]
fn missing_mandatory_root_is_a_fatal_error() {
    let r = scan_ghosts_with_fingerprint_internal("/ssp/ghost", &ParentSnapshot::Missing, &vec![]);
    assert_eq!(r.err(), Some(ScanError::GhostDirMissing));
}

#[test]
fn non_directory_mandatory_root_is_a_fatal_error() {
    let r = scan_ghosts_with_fingerprint_internal(
        "/ssp/ghost",
        &ParentSnapshot::NotDirectory,
        &vec![],
    );
    assert_eq!(r.err(), Some(ScanError::GhostDirNotDirectory));
}

#[test]
fn unreadable_mandatory_root_is_a_fatal_error() {
    let ssp = ParentSnapshot::Dir {
        mtime: MtimeState::Known(1),
        listing: DirListing::Unreadable,
    };
    let r = scan_ghosts_with_fingerprint_internal("/ssp/ghost", &ssp, &vec![]);
    assert_eq!(r.err(), Some(ScanError::GhostDirUnreadable));
}

#[test]
fn scan_ghosts_internal_matches_the_integrated_scan() {
    let ssp = root_with(vec![package_entry("only", 10, "charset,UTF-8\nname,Only\n", 11)]);
    let alone = scan_ghosts_internal("/ssp/ghost", &ssp, &vec![]).unwrap();
    let (with_fp, _) = scan_ghosts_with_fingerprint_internal("/ssp/ghost", &ssp, &vec![]).unwrap();
    assert_eq!(alone.len(), with_fp.len());
    assert_eq!(alone[0].name, with_fp[0].name);
    assert_eq!(alone[0].diff_fingerprint, with_fp[0].diff_fingerprint);
}

fn two_extra_roots() -> (ExtraRoot, ExtraRoot) {
    (
        extra(
            "/roots/a",
            "/roots/a",
            root_with(vec![package_entry("extra_ghost_a", 20, "charset,UTF-8\nname,A\n", 21)]),
        ),
        extra(
            "/roots/b",
            "/roots/b",
            root_with(vec![package_entry("extra_ghost_b", 30, "charset,UTF-8\nname,B\n", 31)]),
        ),
    )
}

#[test]
fn fingerprint_is_order_independent_for_additional_folders() {
    let ssp = root_with(vec![package_entry("base_ghost", 10, "charset,UTF-8\nname,Base\n", 11)]);
    // deduplicate two spellings of the same configuration in both orders:
    // the normalized keys come out identical, so the same snapshots are
    // walked and the fingerprints agree
    let inputs_one = vec![pair("/roots/b"), pair("/roots/a")];
    let inputs_two = vec![pair("/roots/a"), pair("/roots/b")];
    let order_one = unique_sorted_additional_folders(&inputs_one);
    let order_two = unique_sorted_additional_folders(&inputs_two);
    assert_eq!(order_one, order_two);

    let (a1, b1) = two_extra_roots();
    let (a2, b2) = two_extra_roots();
    let fp_one = build_fingerprint("/ssp/ghost", &ssp, &vec![a1, b1]).unwrap();
    let fp_two = build_fingerprint("/ssp/ghost", &ssp, &vec![a2, b2]).unwrap();
    assert_eq!(fp_one, fp_two);
}

#[test]
fn fingerprint_reflects_entry_enumeration_order_not_at_all() {
    let e1 = package_entry("one", 10, "charset,UTF-8\nname,One\n", 11);
    let e2 = package_entry("two", 20, "charset,UTF-8\nname,Two\n", 21);
    let e1b = package_entry("one", 10, "charset,UTF-8\nname,One\n", 11);
    let e2b = package_entry("two", 20, "charset,UTF-8\nname,Two\n", 21);
    let fwd = build_fingerprint("/ssp/ghost", &root_with(vec![e1, e2]), &vec![]).unwrap();
    let rev = build_fingerprint("/ssp/ghost", &root_with(vec![e2b, e1b]), &vec![]).unwrap();
    assert_eq!(fwd, rev);
}

#[test]
fn fingerprint_with_degraded_additional_folders_matches_scan_fingerprint() {
    let ssp = root_with(vec![package_entry("test_ghost", 10, "charset,UTF-8\nname,T\n", 11)]);
    let extras = vec![
        extra("/roots/gone", "/roots/gone", ParentSnapshot::Missing),
        extra("/roots/not_a_dir.txt", "/roots/not_a_dir.txt", ParentSnapshot::NotDirectory),
    ];
    let extras_again = vec![
        extra("/roots/gone", "/roots/gone", ParentSnapshot::Missing),
        extra("/roots/not_a_dir.txt", "/roots/not_a_dir.txt", ParentSnapshot::NotDirectory),
    ];

    let standalone = build_fingerprint("/ssp/ghost", &ssp, &extras).unwrap();
    let (_, integrated) =
        scan_ghosts_with_fingerprint_internal("/ssp/ghost", &ssp, &extras_again).unwrap();
    assert_eq!(standalone, integrated);
}

#[test]
fn integrated_fingerprint_matches_standalone_build_fingerprint() {
    let ssp = root_with(vec![
        package_entry("ghost_a", 10, "charset,UTF-8\nname,A\n", 11),
        package_entry("ghost_b", 20, "charset,UTF-8\nname,B\n", 21),
    ]);
    let ssp_again = root_with(vec![
        package_entry("ghost_a", 10, "charset,UTF-8\nname,A\n", 11),
        package_entry("ghost_b", 20, "charset,UTF-8\nname,B\n", 21),
    ]);
    let mk_extras = || {
        vec![extra(
            "/roots/additional",
            "/roots/additional",
            root_with(vec![package_entry("extra_ghost", 30, "charset,UTF-8\nname,E\n", 31)]),
        )]
    };

    let standalone = build_fingerprint("/ssp/ghost", &ssp, &mk_extras()).unwrap();
    let (_, integrated) =
        scan_ghosts_with_fingerprint_internal("/ssp/ghost", &ssp_again, &mk_extras()).unwrap();
    assert_eq!(standalone, integrated);
}

#[test]
fn touched_timestamp_changes_the_tree_fingerprint_but_not_the_content_fingerprint() {
    let before = root_with(vec![package_entry("g", 100, "charset,UTF-8\nname,G\n", 11)]);
    let after = root_with(vec![package_entry("g", 200, "charset,UTF-8\nname,G\n", 11)]);

    let (ghosts_before, tree_before) =
        scan_ghosts_with_fingerprint_internal("/ssp/ghost", &before, &vec![]).unwrap();
    let (ghosts_after, tree_after) =
        scan_ghosts_with_fingerprint_internal("/ssp/ghost", &after, &vec![]).unwrap();

    assert_eq!(ghosts_before[0].diff_fingerprint, ghosts_after[0].diff_fingerprint);
    assert_ne!(tree_before, tree_after);
}

#[test]
fn fingerprint_hash_of_no_tokens_is_the_empty_sha256() {
    let fp = compute_fingerprint_hash(&vec![]);
    assert_eq!(fp, "e3b0c44298fc1c149afbf4c8996fb92427ae41e4649b934ca495991b7852b855");
}

#[test]
fn fingerprint_matches_a_hand_built_digest() {
    let ssp = ParentSnapshot::Dir {
        mtime: MtimeState::Known(3),
        listing: DirListing::Entries(vec![package_entry("a", 5, "name,A\n", 7)]),
    };
    let fp = build_fingerprint("/r/ghost", &ssp, &vec![]).unwrap();

    // the tokens this walk must produce, already in sorted order
    let tokens = [
        "entry|ssp|/r/ghost|a|5|present|7",
        "fingerprint-version|1",
        "parent|ssp|/r/ghost|3",
    ];
    let mut hasher = sha2::Sha256::new();
    for t in tokens.iter() {
        hasher.update(t.as_bytes());
        hasher.update(b"\n");
    }
    let expected: String = hasher.finalize().iter().map(|b| format!("{:02x}", b)).collect();
    assert_eq!(fp, expected);
}
