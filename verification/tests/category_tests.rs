use quantum_pulse::{Category, CategoryInfo, DefaultCategory, NoCategory};

#[test]
fn test_no_category() {
    let no_cat = NoCategory;
    assert_eq!(no_cat.get_name(), "");
    assert_eq!(
        no_cat.get_description(),
        "Default category when none is specified"
    );
}

#[test]
fn test_default_category() {
    assert_eq!(DefaultCategory::IO.get_name(), "I/O");
    assert_eq!(DefaultCategory::Compute.get_name(), "Compute");
    assert_eq!(DefaultCategory::Memory.get_name(), "Memory");
    assert_eq!(DefaultCategory::System.get_name(), "System");
    assert_eq!(DefaultCategory::UI.get_name(), "UI");
    assert_eq!(DefaultCategory::General.get_name(), "General");

    assert!(DefaultCategory::IO.color_hint().is_some());
    assert_eq!(DefaultCategory::IO.priority(), 1);
    assert_eq!(DefaultCategory::General.priority(), 999);
}

#[test]
fn test_custom_category_implementation() {
    struct AppCategory;

    impl Category for AppCategory {
        fn get_name(&self) -> &str {
            "Application"
        }

        fn get_description(&self) -> &str {
            "Application-specific operations"
        }

        fn color_hint(&self) -> Option<&str> {
            Some("#9b59b6")
        }

        fn priority(&self) -> i32 {
            2
        }
    }

    let app = AppCategory;
    assert_eq!(app.get_name(), "Application");
    assert_eq!(app.get_description(), "Application-specific operations");
}

#[test]
fn test_category_info_from_category() {
    let info = CategoryInfo::from_category(&DefaultCategory::IO);
    assert_eq!(info.name, "I/O");
    assert_eq!(
        info.description,
        "Input/Output operations (database, network, file system)"
    );
    assert_eq!(info.color_hint.as_deref(), Some("#3498db"));
    assert_eq!(info.priority, 1);
}

#[test]
fn test_category_info_uncategorized() {
    let info = CategoryInfo::uncategorized();
    assert_eq!(info.name, "Uncategorized");
    assert_eq!(info.priority, 999);
    assert!(info.color_hint.is_none());
}
