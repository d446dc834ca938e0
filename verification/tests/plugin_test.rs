use rustboard::plugin::{
    is_valid_plugin_name, plugin_file_name, plugin_name_of_entry, plugin_names, plugin_not_found_message,
    DashboardPlugin,
};

struct ExamplePlugin;

impl DashboardPlugin for ExamplePlugin {
    fn name(&self) -> &'static str {
        "example"
    }

    fn execute(&self, args: &str) -> String {
        format!("executed: {}", args)
    }
}

#[test]
fn test_example_plugin() {
    let p = ExamplePlugin;
    assert_eq!(p.name(), "example");
    assert_eq!(p.execute("x"), "executed: x");
}

#[test]
fn list_plugins_detects_wasm() {
    let list = plugin_names(&vec![("dummy_plugin.wasm".to_string(), true)]);
    assert!(list.iter().any(|n| n == "dummy_plugin"));
}

#[test]
fn list_plugins_ignores_non_wasm() {
    let list = plugin_names(&vec![("not_a_plugin.exe".to_string(), true)]);
    assert!(list.is_empty());
}

#[test]
fn wasm_files_are_plugins() {
    assert_eq!(plugin_name_of_entry("dummy_plugin.wasm", true), Some("dummy_plugin".to_string()));
    assert_eq!(plugin_name_of_entry("archive.tar.wasm", true), Some("archive.tar".to_string()));
}

#[test]
fn other_entries_are_not_plugins() {
    assert_eq!(plugin_name_of_entry("not_a_plugin.exe", true), None);
    assert_eq!(plugin_name_of_entry("dir.wasm", false), None);
    assert_eq!(plugin_name_of_entry(".wasm", true), None);
    assert_eq!(plugin_name_of_entry("wasm", true), None);
}

#[test]
fn plugin_names_keep_order() {
    let entries = vec![
        ("b.wasm".to_string(), true),
        ("readme.md".to_string(), true),
        ("a.wasm".to_string(), true),
        ("sub.wasm".to_string(), false),
    ];
    assert_eq!(plugin_names(&entries), vec!["b".to_string(), "a".to_string()]);
    assert!(plugin_names(&vec![("not_a_plugin.exe".to_string(), true)]).is_empty());
}

#[test]
fn plugin_names_are_checked_for_traversal() {
    assert!(is_valid_plugin_name("plugin-openai-tester"));
    assert!(!is_valid_plugin_name("../etc/passwd"));
    assert!(!is_valid_plugin_name("a/b"));
    assert!(!is_valid_plugin_name("a\\b"));
    assert!(!is_valid_plugin_name(".."));
    assert!(is_valid_plugin_name("v1.2"));
}

#[test]
fn plugin_file_and_error_texts() {
    assert_eq!(plugin_file_name("my-plugin"), "my-plugin.wasm");
    assert_eq!(plugin_not_found_message("plugins/bin/x"), "plugin not found: plugins/bin/x");
}
