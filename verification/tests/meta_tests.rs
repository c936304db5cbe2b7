//! Per-package metadata reading and the launcher argument.
use ghost_meta::launch::launch_argument;
use ghost_meta::meta::{read_ghost, scan_ghosts};
use ghost_meta::snapshot::{
    DescriptState, DirListing, EntrySnapshot, MtimeState, ParentSnapshot,
};
use ghost_meta::thumbnail::ShellSnapshot;
use ghost_meta::GhostMetaError;

fn empty_shell() -> ShellSnapshot {
    ShellSnapshot {
        master_path: String::new(),
        listing: None,
        descript_bytes: None,
        thumbnail_path: String::new(),
        thumbnail_exists: false,
        thumbnail_bytes: None,
    }
}

fn entry_with_descript(name: &str, descript: &str) -> EntrySnapshot {
    EntrySnapshot {
        directory_name: name.to_string(),
        path: format!("/roots/{}", name),
        is_dir: true,
        mtime: MtimeState::Known(1),
        descript: DescriptState::Found {
            mtime: MtimeState::Known(2),
            bytes: Some(descript.as_bytes().to_vec()),
        },
        shell: empty_shell(),
    }
}

#[test]
fn read_ghost_reads_name_and_craftman() {
    let meta = read_ghost(&entry_with_descript(
        "my_ghost",
        "charset,UTF-8\nname,テストゴースト\ncraftman,作者名\n",
    )).unwrap();
    assert_eq!(meta.name, "テストゴースト");
    assert_eq!(meta.craftman, Some("作者名".to_string()));
    assert_eq!(meta.directory_name, "my_ghost");
}

#[test]
fn read_ghost_falls_back_to_the_directory_name() {
    let meta = read_ghost(&entry_with_descript("fallback_dir", "charset,UTF-8\n")).unwrap();
    assert_eq!(meta.name, "fallback_dir");
}

#[test]
fn read_ghost_without_craftman_yields_none() {
    let meta = read_ghost(&entry_with_descript("no_craftman", "charset,UTF-8\nname,作者なし\n"))
        .unwrap();
    assert_eq!(meta.craftman, None);
}

#[test]
fn read_ghost_without_descriptor_is_an_io_error() {
    let mut e = entry_with_descript("no_descript", "");
    e.descript = DescriptState::Missing;
    let result = read_ghost(&e);
    assert!(matches!(result, Err(GhostMetaError::Io)));
}

#[test]
fn read_ghost_with_unreadable_descriptor_is_an_io_error() {
    let mut e = entry_with_descript("unreadable", "");
    e.descript = DescriptState::Found { mtime: MtimeState::Known(2), bytes: None };
    let result = read_ghost(&e);
    assert!(matches!(result, Err(GhostMetaError::Io)));
}

#[test]
fn read_ghost_resolves_a_surface_thumbnail() {
    let mut e = entry_with_descript("with_shell", "charset,UTF-8\nname,With Shell\n");
    e.shell = ShellSnapshot {
        master_path: "/roots/with_shell/shell/master".to_string(),
        listing: Some(vec!["surface0.png".to_string()]),
        descript_bytes: None,
        thumbnail_path: "/roots/with_shell/thumbnail.png".to_string(),
        thumbnail_exists: false,
        thumbnail_bytes: None,
    };
    let meta = read_ghost(&e).unwrap();
    let thumb = meta.thumbnail.unwrap();
    assert_eq!(thumb.path, "/roots/with_shell/shell/master/surface0.png");
}

#[test]
fn read_ghost_without_shell_has_no_thumbnail() {
    let meta = read_ghost(&entry_with_descript("no_shell", "charset,UTF-8\nname,No Shell\n"))
        .unwrap();
    assert!(meta.thumbnail.is_none());
}

#[test]
fn scan_ghosts_returns_every_package() {
    let parent = ParentSnapshot::Dir {
        mtime: MtimeState::Known(1),
        listing: DirListing::Entries(vec![
            entry_with_descript("ghost_a", "charset,UTF-8\nname,Alpha\n"),
            entry_with_descript("ghost_b", "charset,UTF-8\nname,Beta\n"),
        ]),
    };
    let metas = scan_ghosts(&parent).unwrap();
    assert_eq!(metas.len(), 2);
    assert_eq!(metas[0].name, "Alpha");
    assert_eq!(metas[1].name, "Beta");
}

#[test]
fn scan_ghosts_skips_entries_without_a_descriptor() {
    let mut bare = entry_with_descript("empty_dir", "");
    bare.descript = DescriptState::Missing;
    let parent = ParentSnapshot::Dir {
        mtime: MtimeState::Known(1),
        listing: DirListing::Entries(vec![
            entry_with_descript("valid_ghost", "charset,UTF-8\nname,Valid\n"),
            bare,
        ]),
    };
    let metas = scan_ghosts(&parent).unwrap();
    assert_eq!(metas.len(), 1);
    assert_eq!(metas[0].name, "Valid");
}

#[test]
fn scan_ghosts_on_an_empty_root_yields_nothing() {
    let parent = ParentSnapshot::Dir {
        mtime: MtimeState::Known(1),
        listing: DirListing::Entries(vec![]),
    };
    let metas = scan_ghosts(&parent).unwrap();
    assert!(metas.is_empty());
}

#[test]
fn scan_ghosts_on_a_missing_root_is_an_io_error() {
    let result = scan_ghosts(&ParentSnapshot::Missing);
    assert!(matches!(result, Err(GhostMetaError::Io)));
}

#[test]
fn scan_ghosts_skips_file_entries() {
    let mut file = entry_with_descript("some_file.txt", "charset,UTF-8\n");
    file.is_dir = false;
    let parent = ParentSnapshot::Dir {
        mtime: MtimeState::Known(1),
        listing: DirListing::Entries(vec![
            entry_with_descript("valid_ghost", "charset,UTF-8\nname,Valid\n"),
            file,
        ]),
    };
    let metas = scan_ghosts(&parent).unwrap();
    assert_eq!(metas.len(), 1);
}

#[test]
fn launch_argument_uses_the_bare_name_for_the_mandatory_root() {
    assert_eq!(launch_argument("my_ghost", "ssp"), "my_ghost");
}

#[test]
fn launch_argument_joins_path_and_name_for_extra_roots() {
    assert_eq!(launch_argument("my_ghost", "/roots/extra"), "/roots/extra/my_ghost");
}
