use opencontext_core::error::ErrorKind;
use opencontext_core::locations::{resolve_env, Surroundings};
use opencontext_core::model::EnvOverrides;
use opencontext_core::paths::{normalize_doc_path, normalize_folder_path, parent_rel_path};
use opencontext_core::restore::backfill_stable_ids;
use opencontext_core::service::OpenContext;
use opencontext_core::stable_id::generate_stable_id;
use opencontext_core::timestamps::timestamp;
use opencontext_core::events::FsOp;

#[test]
fn folder_paths_are_normalised() {
    let cases = [
        ("", ""),
        ("   ", ""),
        (".", ""),
        (" . ", ""),
        ("/", ""),
        ("//", ""),
        ("\\", ""),
        ("a", "a"),
        ("/a/", "a"),
        ("a//b", "a/b"),
        ("a\\b\\c", "a/b/c"),
        ("  a/b/  ", "a/b"),
        ("a/./b", "a/./b"),
        ("a / b", "a / b"),
        ("项目/文档", "项目/文档"),
    ];
    for (input, expected) in cases {
        assert_eq!(normalize_folder_path(Some(input)).unwrap(), expected, "{input:?}");
    }
    let e = normalize_folder_path(None).unwrap_err();
    assert_eq!(e.kind(), ErrorKind::InvalidInput);
    assert_eq!(e.message(), "Folder path is required");
}

#[test]
fn doc_paths_must_not_be_the_root() {
    assert_eq!(normalize_doc_path(Some(" a\\b.md ")).unwrap(), "a/b.md");
    for root in ["", "/", " ", ".", "\\\\"] {
        let e = normalize_doc_path(Some(root)).unwrap_err();
        assert_eq!(e.kind(), ErrorKind::InvalidInput);
        assert_eq!(e.message(), "document path cannot be root");
    }
    assert_eq!(normalize_doc_path(None).unwrap_err().message(), "Document path is required");
}

#[test]
fn normalising_again() {
    for input in ["  a//b\\c/ ", "/x/", "one", "a/ b /c"] {
        let once = normalize_folder_path(Some(input)).unwrap();
        assert_eq!(normalize_folder_path(Some(&once)).unwrap(), once);
    }
    // white space at the end of the last segment survives the first time only
    let once = normalize_folder_path(Some("a/b /")).unwrap();
    assert_eq!(once, "a/b ");
    assert_eq!(normalize_folder_path(Some(&once)).unwrap(), "a/b");
}

#[test]
fn parents_of_paths() {
    assert_eq!(parent_rel_path("a/b/c"), Some("a/b".to_string()));
    assert_eq!(parent_rel_path("a/b"), Some("a".to_string()));
    assert_eq!(parent_rel_path("a"), None);
    assert_eq!(parent_rel_path(""), None);
    assert_eq!(parent_rel_path("/a"), None);
    assert_eq!(parent_rel_path("a/"), Some("a".to_string()));
}

#[test]
fn stable_ids_have_the_form_of_a_random_uuid() {
    let id = generate_stable_id(&vec![0xff; 16]).unwrap();
    assert_eq!(id, "ffffffff-ffff-4fff-bfff-ffffffffffff");
    let id = generate_stable_id(&vec![0x00; 16]).unwrap();
    assert_eq!(id, "00000000-0000-4000-8000-000000000000");
    let bytes: Vec<u8> = vec![
        0x12, 0x34, 0x56, 0x78, 0x9a, 0xbc, 0xde, 0xf0, 0x0f, 0x1e, 0x2d, 0x3c, 0x4b, 0x5a, 0x69,
        0x78,
    ];
    assert_eq!(generate_stable_id(&bytes).unwrap(), "12345678-9abc-4ef0-8f1e-2d3c4b5a6978");
    for n in [0usize, 15, 17] {
        let e = generate_stable_id(&vec![1; n]).unwrap_err();
        assert_eq!(e.kind(), ErrorKind::Store);
        assert_eq!(e.message(), "database error: failed to generate stable_id");
    }
    for seed in 0u8..=255 {
        let bytes: Vec<u8> = (0..16u8).map(|i| seed.wrapping_mul(i).wrapping_add(seed)).collect();
        let id = generate_stable_id(&bytes).unwrap();
        let chars: Vec<char> = id.chars().collect();
        assert_eq!(chars.len(), 36);
        for (i, c) in chars.iter().enumerate() {
            if [8, 13, 18, 23].contains(&i) {
                assert_eq!(*c, '-');
            } else {
                assert!(c.is_ascii_hexdigit() && !c.is_ascii_uppercase());
            }
        }
        assert_eq!(chars[14], '4');
        assert!(['8', '9', 'a', 'b'].contains(&chars[19]));
    }
}

#[test]
fn locations_resolve_from_overrides_then_variables_then_home() {
    let none = EnvOverrides::default();
    let home = Surroundings { home_dir: Some("/home/u".into()), ..Surroundings::default() };
    let info = resolve_env(&none, &home).unwrap();
    assert_eq!(info.contexts_root, "/home/u/.opencontext/contexts");
    assert_eq!(info.db_path, "/home/u/.opencontext/opencontext.db");

    let vars = Surroundings {
        root_var: Some("/srv/oc/".into()),
        contexts_root_var: Some("/mnt/tree".into()),
        db_path_var: None,
        home_dir: Some("/home/u".into()),
    };
    let info = resolve_env(&none, &vars).unwrap();
    assert_eq!(info.contexts_root, "/mnt/tree");
    assert_eq!(info.db_path, "/srv/oc/opencontext.db");

    let given = EnvOverrides {
        base_root: Some("/base".into()),
        contexts_root: None,
        db_path: Some("db.sqlite".into()),
    };
    let info = resolve_env(&given, &vars).unwrap();
    assert_eq!(info.contexts_root, "/mnt/tree");
    assert_eq!(info.db_path, "db.sqlite");

    let e = resolve_env(&none, &Surroundings::default()).unwrap_err();
    assert_eq!(e.kind(), ErrorKind::InvalidInput);
    assert_eq!(e.message(), "Unable to resolve user home directory");
    // even where both other locations are given
    let partly = EnvOverrides {
        base_root: None,
        contexts_root: Some("/c".into()),
        db_path: Some("/d/x.db".into()),
    };
    assert!(resolve_env(&partly, &Surroundings::default()).is_err());
}

#[test]
fn initialize_asks_for_the_directories() {
    let given = EnvOverrides {
        base_root: Some("/base".into()),
        contexts_root: None,
        db_path: None,
    };
    let applied = OpenContext::initialize(given, &Surroundings::default()).unwrap();
    assert!(matches!(
        applied.before_commit.as_slice(),
        [FsOp::CreateDirAll { path: tree }, FsOp::CreateDirAll { path: dir }]
            if tree == "/base/contexts" && dir == "/base"
    ));
    assert!(applied.value.folders().is_empty());
    let flat = EnvOverrides {
        base_root: Some("/base".into()),
        contexts_root: None,
        db_path: Some("x.db".into()),
    };
    let applied = OpenContext::initialize(flat, &Surroundings::default()).unwrap();
    assert_eq!(applied.before_commit.len(), 1);
}

#[test]
fn rows_without_stable_id_are_given_one() {
    let mut ctx = OpenContext::initialize(
        EnvOverrides { base_root: Some("/b".into()), contexts_root: None, db_path: None },
        &Surroundings::default(),
    )
    .unwrap()
    .value;
    ctx.create_folder("f", None, "t").unwrap();
    ctx.create_doc("f", "a.md", None, &vec![1; 16], "t").unwrap();
    ctx.create_doc("f", "b.md", None, &vec![2; 16], "t").unwrap();
    ctx.create_doc("f", "c.md", None, &vec![3; 16], "t").unwrap();
    let mut rows = ctx.docs();
    let kept = rows[1].stable_id.clone();
    rows[0].stable_id.clear();
    rows[2].stable_id.clear();
    let filled = backfill_stable_ids(rows, &vec![vec![0xaa; 16], vec![0xbb; 16]]).unwrap();
    assert_eq!(filled[0].stable_id, "aaaaaaaa-aaaa-4aaa-aaaa-aaaaaaaaaaaa");
    assert_eq!(filled[1].stable_id, kept);
    assert_eq!(filled[2].stable_id, "bbbbbbbb-bbbb-4bbb-bbbb-bbbbbbbbbbbb");
    assert_eq!(filled[2].rel_path, "f/c.md");
    let mut rows = ctx.docs();
    rows[0].stable_id.clear();
    rows[2].stable_id.clear();
    assert!(backfill_stable_ids(rows, &vec![vec![0xaa; 16]]).is_err());
    let mut rows = ctx.docs();
    rows[0].stable_id.clear();
    assert!(backfill_stable_ids(rows, &vec![vec![0xaa; 3]]).is_err());
    assert_eq!(backfill_stable_ids(ctx.docs(), &vec![]).unwrap().len(), 3);
}

#[test]
fn times_are_written_in_utc_with_milliseconds() {
    assert_eq!(timestamp(0).unwrap(), "1970-01-01T00:00:00.000Z");
    assert_eq!(timestamp(1_714_557_600_123).unwrap(), "2024-05-01T10:00:00.123Z");
    assert_eq!(timestamp(-1).unwrap(), "1969-12-31T23:59:59.999Z");
    assert_eq!(timestamp(951_782_400_000).unwrap(), "2000-02-29T00:00:00.000Z");
    let e = timestamp(i64::MAX).unwrap_err();
    assert_eq!(e.kind(), ErrorKind::InvalidInput);
    assert_eq!(e.message(), "time is out of range");
    assert!(timestamp(i64::MIN).is_err());
}
