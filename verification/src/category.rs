//! Categories: named groups of operations sharing descriptive metadata
//! and a sort priority.

use vstd::prelude::*;

verus! {

/// Descriptive metadata attached to a group of operations: the name is the
/// grouping key; lower priority sorts first in reports.
pub trait Category {
    /// Name of this category; the grouping key for reports.
    fn get_name(&self) -> &str;

    /// Human-readable description of this category.
    fn get_description(&self) -> &str;

    /// Optional color hint for visualization.
    fn color_hint(&self) -> Option<&str>;

    /// Sort priority: lower values appear first.
    fn priority(&self) -> i32;
}

/// The category used when an operation does not specify one.
pub struct NoCategory;

impl Category for NoCategory {
    fn get_name(&self) -> (r: &str)
        ensures
            r@ == ""@,
    {
        ""
    }

    fn get_description(&self) -> (r: &str)
        ensures
            r@ == "Default category when none is specified"@,
    {
        "Default category when none is specified"
    }

    fn color_hint(&self) -> (r: Option<&str>) {
        Some("#95a5a6")
    }

    fn priority(&self) -> (r: i32) {
        999
    }
}

/// A small closed set of ready-made categories for basic use.
#[derive(Debug, Clone, Copy, PartialEq, Eq, Hash)]
pub enum DefaultCategory {
    /// Input/Output operations (database, network, file system)
    IO,
    /// Computational operations (calculations, data processing)
    Compute,
    /// Memory operations (allocation, deallocation)
    Memory,
    /// System operations (OS calls, threading)
    System,
    /// User interface operations
    UI,
    /// General uncategorized operations
    General,
}

impl Category for DefaultCategory {
    fn get_name(&self) -> (r: &str) {
        match self {
            DefaultCategory::IO => "I/O",
            DefaultCategory::Compute => "Compute",
            DefaultCategory::Memory => "Memory",
            DefaultCategory::System => "System",
            DefaultCategory::UI => "UI",
            DefaultCategory::General => "General",
        }
    }

    fn get_description(&self) -> (r: &str) {
        match self {
            DefaultCategory::IO => "Input/Output operations (database, network, file system)",
            DefaultCategory::Compute => "Computational operations (calculations, data processing)",
            DefaultCategory::Memory => "Memory operations (allocation, deallocation)",
            DefaultCategory::System => "System operations (OS calls, threading)",
            DefaultCategory::UI => "User interface operations",
            DefaultCategory::General => "General uncategorized operations",
        }
    }

    fn color_hint(&self) -> (r: Option<&str>) {
        match self {
            DefaultCategory::IO => Some("#3498db"),
            DefaultCategory::Compute => Some("#e74c3c"),
            DefaultCategory::Memory => Some("#f39c12"),
            DefaultCategory::System => Some("#9b59b6"),
            DefaultCategory::UI => Some("#2ecc71"),
            DefaultCategory::General => Some("#95a5a6"),
        }
    }

    fn priority(&self) -> (r: i32)
        ensures
            r == self.priority_spec(),
    {
        match self {
            DefaultCategory::IO => 1,
            DefaultCategory::Compute => 2,
            DefaultCategory::Memory => 3,
            DefaultCategory::System => 4,
            DefaultCategory::UI => 5,
            DefaultCategory::General => 999,
        }
    }
}

impl DefaultCategory {
    /// The priority each ready-made category sorts under.
    pub open spec fn priority_spec(self) -> i32 {
        match self {
            DefaultCategory::IO => 1,
            DefaultCategory::Compute => 2,
            DefaultCategory::Memory => 3,
            DefaultCategory::System => 4,
            DefaultCategory::UI => 5,
            DefaultCategory::General => 999,
        }
    }
}

/// Mathematical image of a [`CategoryInfo`] value.
pub ghost struct CategoryInfoModel {
    /// Name as a character sequence.
    pub name: Seq<char>,
    /// Description as a character sequence.
    pub description: Seq<char>,
    /// Color hint, if any.
    pub color_hint: Option<Seq<char>>,
    /// Sort priority.
    pub priority: int,
}

/// An owned, plain-data category descriptor. The collector stores one of
/// these per operation key; it is the value contracts speak about.
#[derive(Debug, Clone)]
pub struct CategoryInfo {
    /// Name of the category; the grouping key.
    pub name: String,
    /// Human-readable description.
    pub description: String,
    /// Optional color hint for visualization.
    pub color_hint: Option<String>,
    /// Sort priority: lower values appear first.
    pub priority: i32,
}

impl View for CategoryInfo {
    type V = CategoryInfoModel;

    open spec fn view(&self) -> CategoryInfoModel {
        CategoryInfoModel {
            name: self.name@,
            description: self.description@,
            color_hint: match self.color_hint {
                Some(s) => Some(s@),
                None => None,
            },
            priority: self.priority as int,
        }
    }
}

impl CategoryInfo {
    /// Build a descriptor from explicit parts.
    pub fn new(name: &str, description: &str, color_hint: Option<&str>, priority: i32) -> (r:
        CategoryInfo)
        ensures
            r@.name == name@,
            r@.description == description@,
            r@.color_hint == match color_hint {
                Some(s) => Some(s@),
                None => None::<Seq<char>>,
            },
            r@.priority == priority as int,
    {
        CategoryInfo {
            name: name.to_owned(),
            description: description.to_owned(),
            color_hint: match color_hint {
                Some(s) => Some(s.to_owned()),
                None => None,
            },
            priority,
        }
    }

    /// Capture the metadata of any [`Category`] implementation as plain data.
    /// What the descriptor holds is whatever the trait methods returned.
    pub fn from_category<C: Category>(category: &C) -> CategoryInfo {
        let name = category.get_name();
        let description = category.get_description();
        let color_hint = category.color_hint();
        let priority = category.priority();
        CategoryInfo::new(name, description, color_hint, priority)
    }

    /// The descriptor used for keys recorded without category metadata.
    pub fn uncategorized() -> (r: CategoryInfo)
        ensures
            r@.name == "Uncategorized"@,
            r@.priority == 999,
            r@.color_hint is None,
    {
        CategoryInfo::new("Uncategorized", "Operations recorded without a category", None, 999)
    }

    /// An exact copy, field by field.
    pub fn duplicate(&self) -> (r: CategoryInfo)
        ensures
            r@ == self@,
    {
        CategoryInfo {
            name: self.name.clone(),
            description: self.description.clone(),
            color_hint: match &self.color_hint {
                Some(s) => Some(s.clone()),
                None => None,
            },
            priority: self.priority,
        }
    }
}

} // verus!
