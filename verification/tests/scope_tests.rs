use unity_scope::data::AssetKind;
use unity_scope::data::UnityMaterial;
use unity_scope::data::UnityTexture2D;
use unity_scope::scope::ProjectScope;
use unity_scope::scope::ScanConfig;
use unity_scope::ScopeError;

fn sidecar(path: &str, guid: &str) -> (String, String) {
    (path.to_string(), format!("fileFormatVersion: 2\nguid: {}", guid))
}

fn scope_of(entries: Vec<(String, String)>) -> ProjectScope {
    ProjectScope::init("root".to_string(), ScanConfig::default(), entries).unwrap()
}

#[test]
fn test_open_project() {
    let init = ProjectScope::init(
        r"C:\Users\rm\Projects\Jabki\Assets".to_string(),
        ScanConfig::default(),
        vec![],
    );
    assert!(init.is_ok())
}

#[test]
fn test_load_texture() {
    let project = ProjectScope::init(
        r"C:\Users\rm\Projects\Jabki\Assets".to_string(),
        ScanConfig::default(),
        vec![sidecar(
            r"C:\Users\rm\Projects\Jabki\Assets\coconut.png.meta",
            "9fc5e61e92565b649a2a621367653c24",
        )],
    )
    .unwrap();
    let tex: UnityTexture2D = project
        .find_asset_by_guid("9fc5e61e92565b649a2a621367653c24")
        .unwrap();
    assert!(!tex.as_path(&project).is_empty());
}

#[test]
fn test_index_counts_only_allowed_sidecars() {
    let scope = scope_of(vec![
        sidecar("root/a.png.meta", "g1"),
        sidecar("root/b.mat.meta", "g2"),
        sidecar("root/c.txt.meta", "g3"),
        sidecar("root/d.docx.meta", "g4"),
        ("root/a.png".to_string(), "not yaml at all :::".to_string()),
    ]);
    assert_eq!(scope.size(), 2);
}

#[test]
fn test_bad_version_aborts_scan() {
    let entries = vec![
        sidecar("root/a.png.meta", "g1"),
        (
            "root/b.mat.meta".to_string(),
            "fileFormatVersion: 3\nguid: g2".to_string(),
        ),
    ];
    let r = ProjectScope::init("root".to_string(), ScanConfig::default(), entries);
    match r {
        Err(ScopeError::InvalidFormat(v)) => assert_eq!(v, 3),
        _ => panic!("expected InvalidFormat"),
    }
}

#[test]
fn test_unparsable_sidecar_aborts_scan() {
    let entries = vec![(
        "root/a.png.meta".to_string(),
        "guid: [unclosed".to_string(),
    )];
    let r = ProjectScope::init("root".to_string(), ScanConfig::default(), entries);
    assert!(matches!(r, Err(ScopeError::YamlError(_))));
}

#[test]
fn test_sidecar_missing_guid_aborts_scan() {
    let entries = vec![(
        "root/a.png.meta".to_string(),
        "fileFormatVersion: 2".to_string(),
    )];
    let r = ProjectScope::init("root".to_string(), ScanConfig::default(), entries);
    assert!(matches!(r, Err(ScopeError::YamlError(_))));
}

#[test]
fn test_guid_not_found() {
    let scope = scope_of(vec![sidecar("root/a.png.meta", "g1")]);
    let r: Result<UnityTexture2D, ScopeError> = scope.find_asset_by_guid("absent");
    match r {
        Err(ScopeError::GuidNotFound(g)) => assert_eq!(g, "absent"),
        _ => panic!("expected GuidNotFound"),
    }
}

#[test]
fn test_name_not_found() {
    let scope = scope_of(vec![sidecar("root/a.png.meta", "g1")]);
    let r: Result<UnityTexture2D, ScopeError> = scope.find_asset_by_name("zzz");
    match r {
        Err(ScopeError::NameNotFound(n)) => assert_eq!(n, "zzz"),
        _ => panic!("expected NameNotFound"),
    }
}

#[test]
fn test_find_by_name_first_in_scan_order() {
    let scope = scope_of(vec![
        sidecar("root/one_coconut.png.meta", "g1"),
        sidecar("root/two_coconut.png.meta", "g2"),
    ]);
    let found: UnityMaterial = scope.find_asset_by_name("coconut").unwrap();
    assert_eq!(found.guid(), "g1");
}

#[test]
fn test_find_by_name_matches_file_name_only() {
    let scope = scope_of(vec![sidecar("root/needle/a.png.meta", "g1")]);
    let r: Result<UnityTexture2D, ScopeError> = scope.find_asset_by_name("needle");
    assert!(matches!(r, Err(ScopeError::NameNotFound(_))));
}

#[test]
fn test_find_by_name_backslash_paths() {
    let scope = scope_of(vec![
        sidecar(r"root\needle\other.png.meta", "g1"),
        sidecar(r"root\needle\coconut.png.meta", "g2"),
    ]);
    let found: UnityTexture2D = scope.find_asset_by_name("coconut").unwrap();
    assert_eq!(found.guid(), "g2");
    let miss: Result<UnityTexture2D, ScopeError> = scope.find_asset_by_name("needle");
    assert!(matches!(miss, Err(ScopeError::NameNotFound(_))));
}

#[test]
fn test_duplicate_guid_last_write_wins() {
    let scope = scope_of(vec![
        sidecar("root/a.png.meta", "g1"),
        sidecar("root/b.png.meta", "g1"),
    ]);
    assert_eq!(scope.size(), 1);
    let tex: UnityTexture2D = scope.find_asset_by_guid("g1").unwrap();
    assert_eq!(tex.as_path(&scope), "root/b.png");
}

#[test]
fn test_scan_scenario_texture2d() {
    let scope = ProjectScope::init(
        "root".to_string(),
        ScanConfig::default(),
        vec![
            sidecar("root/tex.png.meta", "abc123"),
            sidecar("root/ignored.txt.meta", "zzz999"),
        ],
    )
    .unwrap();
    assert_eq!(scope.size(), 1);
    let tex: UnityTexture2D = scope.find_asset_by_guid("abc123").unwrap();
    assert_eq!(tex.guid(), "abc123");
    assert_eq!(tex.as_path(&scope), "root/tex.png");
}

#[test]
fn test_default_scan_config() {
    let cfg = ScanConfig::default();
    assert_eq!(cfg.extension_filter, "png,jpg,hdr,asset,mat");
}
