use splash::discovery::{DirEntry, DirListing, DiscoveryError, PluginDiscovery};

fn file_entry(path: &str) -> DirEntry {
    DirEntry {
        path: path.to_string(),
        is_regular_file: true,
    }
}

#[test]
fn test_discovery_new() {
    let discovery = PluginDiscovery::new();
    assert!(!discovery.search_paths().is_empty());
}

#[test]
fn test_default_paths_with_home() {
    let paths = PluginDiscovery::default_paths_from(Some("/home/someone".to_string()));
    assert_eq!(
        paths,
        vec![
            "/home/someone/.splash/plugins".to_string(),
            "/usr/local/lib/splash/plugins".to_string(),
            "/usr/lib/splash/plugins".to_string()
        ]
    );
}

#[test]
fn test_default_paths_without_home() {
    let paths = PluginDiscovery::default_paths_from(None);
    assert_eq!(
        paths,
        vec![
            "/usr/local/lib/splash/plugins".to_string(),
            "/usr/lib/splash/plugins".to_string()
        ]
    );
}

#[test]
fn test_discovery_new_ends_with_system_paths() {
    let discovery = PluginDiscovery::new();
    let paths = discovery.search_paths();
    let n = paths.len();
    assert!(n == 2 || n == 3);
    assert_eq!(paths[n - 2], "/usr/local/lib/splash/plugins");
    assert_eq!(paths[n - 1], "/usr/lib/splash/plugins");
    if n == 3 {
        assert!(paths[0].ends_with("/.splash/plugins"));
    }
}

#[test]
fn test_discovery_with_custom_paths() {
    let paths = vec!["/custom/path1".to_string(), "/custom/path2".to_string()];
    let discovery = PluginDiscovery::with_paths(paths.clone());
    assert_eq!(discovery.search_paths(), &paths);
}

#[test]
fn test_add_custom_path() {
    let mut discovery = PluginDiscovery::with_paths(vec![]);
    assert_eq!(discovery.search_paths().len(), 0);

    discovery.add_path("/custom/path".to_string());
    assert_eq!(discovery.search_paths().len(), 1);
    assert_eq!(discovery.search_paths()[0], "/custom/path".to_string());
}

#[test]
fn test_plugin_file_extensions() {
    let discovery = PluginDiscovery::new();

    assert!(discovery.is_plugin_file("plugin.so"));
    assert!(discovery.is_plugin_file("plugin.dylib"));
    assert!(discovery.is_plugin_file("plugin.dll"));
    assert!(discovery.is_plugin_file("dir/plugin.SO"));
    assert!(!discovery.is_plugin_file("readme.txt"));
    assert!(!discovery.is_plugin_file("plugin"));
    assert!(!discovery.is_plugin_file(".so"));
    assert!(!discovery.is_plugin_file("dir.so/plugin"));
}

#[test]
fn test_collect_candidates_filters_by_extension() {
    let discovery = PluginDiscovery::with_paths(vec!["/plugins".to_string()]);
    let listings = vec![DirListing::Listed(vec![
        file_entry("/plugins/plugin1.so"),
        file_entry("/plugins/plugin2.dylib"),
        file_entry("/plugins/readme.txt"),
        DirEntry {
            path: "/plugins/subdir.so".to_string(),
            is_regular_file: false,
        },
    ])];

    let found = discovery.collect_candidates(&listings).unwrap();
    assert_eq!(
        found,
        vec![
            "/plugins/plugin1.so".to_string(),
            "/plugins/plugin2.dylib".to_string()
        ]
    );
}

#[test]
fn test_collect_candidates_nonexistent_path_is_empty() {
    let discovery = PluginDiscovery::with_paths(vec!["/nonexistent/path".to_string()]);
    let result = discovery.collect_candidates(&vec![DirListing::Missing]);

    // A nonexistent search path yields an empty list, not an error
    assert!(result.is_ok());
    assert_eq!(result.unwrap().len(), 0);
}

#[test]
fn test_collect_candidates_skips_denied_and_non_directories() {
    let discovery = PluginDiscovery::with_paths(vec![
        "/denied".to_string(),
        "/afile".to_string(),
        "/plugins".to_string(),
    ]);
    let listings = vec![
        DirListing::AccessDenied,
        DirListing::NotADirectory,
        DirListing::Listed(vec![file_entry("/plugins/one.so")]),
    ];

    let found = discovery.collect_candidates(&listings).unwrap();
    assert_eq!(found, vec!["/plugins/one.so".to_string()]);
}

#[test]
fn test_collect_candidates_reports_other_failures() {
    let discovery = PluginDiscovery::with_paths(vec!["/broken".to_string()]);
    let listings = vec![DirListing::Failed("device error".to_string())];

    match discovery.collect_candidates(&listings) {
        Err(DiscoveryError::IoError(message)) => assert_eq!(message, "device error"),
        _ => panic!("Expected IoError"),
    }
}

#[test]
fn test_find_plugin_by_stem_and_lib_prefix() {
    let discovery = PluginDiscovery::with_paths(vec!["/plugins".to_string()]);
    let listings = vec![DirListing::Listed(vec![
        file_entry("/plugins/syslog.so"),
        file_entry("/plugins/libapache.dylib"),
    ])];

    // Find by exact name
    let syslog = discovery.find_plugin("syslog", &listings).unwrap();
    assert_eq!(syslog, Some("/plugins/syslog.so".to_string()));

    // Find by name without lib prefix
    let apache = discovery.find_plugin("apache", &listings).unwrap();
    assert_eq!(apache, Some("/plugins/libapache.dylib".to_string()));

    // Non-existent plugin
    let nonexistent = discovery.find_plugin("nonexistent", &listings).unwrap();
    assert!(nonexistent.is_none());
}

#[test]
fn test_find_plugin_requires_exact_stem() {
    let discovery = PluginDiscovery::with_paths(vec!["/plugins".to_string()]);
    let listings = vec![DirListing::Listed(vec![file_entry("/plugins/apache2.so")])];

    let apache = discovery.find_plugin("apache", &listings).unwrap();
    assert!(apache.is_none());
}

#[test]
fn test_find_plugin_takes_first_match() {
    let discovery = PluginDiscovery::with_paths(vec!["/a".to_string(), "/b".to_string()]);
    let listings = vec![
        DirListing::Listed(vec![file_entry("/a/apache.so")]),
        DirListing::Listed(vec![file_entry("/b/libapache.so")]),
    ];

    let apache = discovery.find_plugin("apache", &listings).unwrap();
    assert_eq!(apache, Some("/a/apache.so".to_string()));
}
