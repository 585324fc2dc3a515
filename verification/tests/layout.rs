use beditor::layout::{
    layout_source, layout_to_save, prefab_item_name, restore_tab, LayoutInfo, LayoutSave, LayoutSource, MissingUi,
    TabRestore, UiVTables,
};
use beditor::settings::{setting_key, EditorSettingCategory, ThemeEvent, ThemeIndex, ThemeNotice};

#[test]
fn missing_ui_message_names_uuid() {
    let id = 0xd0f32ae1_2851_4bcd_a0c9_f83ae030d85f_u128;
    let ui = MissingUi::new("Inspector", id);
    assert_eq!(ui.message(), "Failed to find ui component Inspector with uuid: d0f32ae1-2851-4bcd-a0c9-f83ae030d85f");
    assert_eq!(ui.id(), id);
    assert_eq!(ui.name(), "Inspector");
}

#[test]
fn layout_info_keeps_fields() {
    let info = LayoutInfo::new(7, "Assets");
    assert_eq!(info.id(), 7);
    assert_eq!(info.name(), "Assets");
}

#[test]
fn restore_decisions() {
    assert_eq!(restore_tab(false, true), TabRestore::Missing);
    assert_eq!(restore_tab(true, true), TabRestore::Reopen);
    assert_eq!(restore_tab(true, false), TabRestore::Drop);
    assert_eq!(layout_source(true, true), LayoutSource::Saved);
    assert_eq!(layout_source(true, false), LayoutSource::Default);
    assert_eq!(layout_source(false, true), LayoutSource::Default);
}

#[test]
fn layout_save_on_exit() {
    assert_eq!(layout_to_save(Some(false), Some("mine".to_string())), LayoutSave::Skip);
    assert_eq!(
        layout_to_save(None, Some("mine".to_string())),
        LayoutSave::Save { name: "mine".to_string(), record_name: false }
    );
    assert_eq!(
        layout_to_save(Some(true), None),
        LayoutSave::Save { name: "default".to_string(), record_name: true }
    );
}

#[test]
fn keys_and_names() {
    assert_eq!(setting_key("ui", "current_layout"), "ui.current_layout");
    assert_eq!(prefab_item_name("Cube", Some("Red")), "Cube#Red");
    assert_eq!(prefab_item_name("Cube", None), "Cube");
}

#[test]
fn category_labels_are_title_case() {
    let all = EditorSettingCategory::variants();
    let labels: Vec<String> = all.iter().map(|c| c.label()).collect();
    assert_eq!(labels, vec!["Appearance".to_string(), "Advanced Options".to_string()]);
    assert_eq!(EditorSettingCategory::AdvancedOptions.name(), "AdvancedOptions");
}

#[test]
fn vtables_register_once() {
    let mut tables = UiVTables::new();
    assert!(!tables.contains_key(3));
    tables.register(3, "hierarchy");
    tables.register(4, "inspector");
    assert!(tables.contains_key(3));
    assert_eq!(tables.get(4), Some(&"inspector"));
    assert_eq!(tables.get(5), None);
}

#[test]
fn theme_steps() {
    let mut themes: ThemeIndex<u32> = ThemeIndex::new();
    assert_eq!(themes.theme_step("dark", ThemeEvent::ChangeClicked), ThemeNotice::Nothing);
    assert_eq!(themes.theme_step("dark", ThemeEvent::Saved(1)), ThemeNotice::Nothing);
    assert_eq!(themes.get("dark"), Some(&1));
    assert_eq!(themes.theme_step("dark", ThemeEvent::Saved(2)), ThemeNotice::Nothing);
    assert_eq!((themes.len(), themes.get("dark")), (1, Some(&2)));
    assert_eq!(themes.theme_step("dark", ThemeEvent::ChangeClicked), ThemeNotice::Changed);
    assert_eq!(themes.theme_step("light", ThemeEvent::SerializeFailed), ThemeNotice::SerializeFailed);
    assert_eq!(themes.theme_step("light", ThemeEvent::WriteFailed), ThemeNotice::SaveFailed);
    assert!(!themes.contains("light"));
    assert_eq!(
        themes.theme_step("dark", ThemeEvent::RemoveClicked { file_removed: false }),
        ThemeNotice::RemoveFailed
    );
    assert_eq!(themes.get("dark"), Some(&2));
    assert_eq!(themes.theme_step("dark", ThemeEvent::RemoveClicked { file_removed: true }), ThemeNotice::Removed);
    assert!(!themes.contains("dark"));
    assert_eq!(
        themes.theme_step("dark", ThemeEvent::RemoveClicked { file_removed: true }),
        ThemeNotice::Nothing
    );
}

#[test]
fn theme_names_listed() {
    let mut themes: ThemeIndex<()> = ThemeIndex::new();
    for name in ["b", "é", "a", "Zed", "ab", "a"] {
        themes.insert(name, ());
    }
    let names: Vec<&str> = (0..themes.len()).map(|i| themes.name(i)).collect();
    assert_eq!(names, vec!["Zed", "a", "ab", "b", "é"]);
    let mut sorted = names.clone();
    sorted.sort();
    assert_eq!(names, sorted);
    assert!(themes.remove("a"));
    assert!(!themes.remove("a"));
    assert_eq!(themes.len(), 4);
    assert_eq!(themes.name(0), "Zed");
    assert_eq!(themes.name(1), "ab");
}
