use quantum_pulse::{
    Category, CategorizedOperation, CategoryInfo, NoCategory, Operation, SimpleOperation,
};

struct TestCategory;

impl Category for TestCategory {
    fn get_name(&self) -> &str {
        "Test"
    }

    fn get_description(&self) -> &str {
        "Test category"
    }

    fn color_hint(&self) -> Option<&str> {
        None
    }

    fn priority(&self) -> i32 {
        0
    }
}

struct TestOperation {
    name: String,
}

impl Operation for TestOperation {
    fn get_category(&self) -> CategoryInfo {
        CategoryInfo::from_category(&TestCategory)
    }

    fn to_str(&self) -> String {
        format!("test_{}", self.name)
    }
}

struct DefaultOp;

impl Operation for DefaultOp {
    fn get_category(&self) -> CategoryInfo {
        CategoryInfo::from_category(&NoCategory)
    }

    fn to_str(&self) -> String {
        "DefaultOp".to_string()
    }
}

#[test]
fn test_operation_default_category() {
    let op = DefaultOp;
    let category = op.get_category();
    assert_eq!(category.name, "");
}

#[test]
fn test_operation_default_to_str() {
    let op = DefaultOp;
    assert_eq!(op.to_str(), "DefaultOp");
}

#[test]
fn test_custom_operation() {
    let op = TestOperation {
        name: "my_test".to_string(),
    };

    assert_eq!(op.get_category().name, "Test");
    assert_eq!(op.to_str(), "test_my_test");
}

#[test]
fn test_categorized_operation_creation() {
    let op = CategorizedOperation::new("simple_test", CategoryInfo::from_category(&NoCategory));
    assert_eq!(op.to_str(), "simple_test");
    assert_eq!(op.get_category().name, "");
}

#[test]
fn test_categorized_operation() {
    let op = CategorizedOperation::new(
        "categorized_test",
        CategoryInfo::from_category(&TestCategory),
    );
    assert_eq!(op.to_str(), "categorized_test");
    assert_eq!(op.get_category().name, "Test");
}

#[test]
fn test_simple_operation() {
    let op = SimpleOperation::new("database_query");
    assert_eq!(op.to_str(), "database_query");
    assert_eq!(op.get_category().name, "");
}
