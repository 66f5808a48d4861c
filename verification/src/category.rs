//! The category classifier: a total map from a file extension to one of
//! seven fixed categories, each with its folder name.

use vstd::prelude::*;

use crate::naming::str_eq;

verus! {

/// The seven categories a file can be sorted into.  Every extension maps to
/// exactly one of them; anything not in the fixed table maps to `Others`.
#[derive(Clone, Copy, PartialEq, Eq, Structural, Debug)]
pub enum Category {
    Images,
    Videos,
    Documents,
    Archives,
    Scripts,
    Executables,
    Others,
}

/// The classification table.  An extension is matched exactly (callers
/// lowercase first); everything unlisted, the empty string included, is
/// `Others`.
pub open spec fn spec_category(ext: Seq<char>) -> Category {
    if ext == "jpg"@ || ext == "jpeg"@ || ext == "png"@ || ext == "gif"@ || ext == "bmp"@ {
        Category::Images
    } else if ext == "mp4"@ || ext == "mkv"@ || ext == "mov"@ || ext == "avi"@ {
        Category::Videos
    } else if ext == "pdf"@ || ext == "docx"@ || ext == "txt"@ || ext == "xlsx"@
        || ext == "pptx"@ || ext == "xls"@ {
        Category::Documents
    } else if ext == "zip"@ || ext == "rar"@ || ext == "7z"@ || ext == "tar"@ || ext == "gz"@ {
        Category::Archives
    } else if ext == "py"@ || ext == "js"@ || ext == "cpp"@ || ext == "rs"@ || ext == "html"@
        || ext == "css"@ {
        Category::Scripts
    } else if ext == "exe"@ || ext == "msi"@ || ext == "bat"@ || ext == "sh"@ {
        Category::Executables
    } else {
        Category::Others
    }
}

/// Classifies a (lowercased) extension, with no leading separator.
pub fn get_category(extension: &str) -> (c: Category)
    ensures
        c == spec_category(extension@),
{
    if str_eq(extension, "jpg") || str_eq(extension, "jpeg") || str_eq(extension, "png")
        || str_eq(extension, "gif") || str_eq(extension, "bmp") {
        Category::Images
    } else if str_eq(extension, "mp4") || str_eq(extension, "mkv") || str_eq(extension, "mov")
        || str_eq(extension, "avi") {
        Category::Videos
    } else if str_eq(extension, "pdf") || str_eq(extension, "docx") || str_eq(extension, "txt")
        || str_eq(extension, "xlsx") || str_eq(extension, "pptx") || str_eq(extension, "xls") {
        Category::Documents
    } else if str_eq(extension, "zip") || str_eq(extension, "rar") || str_eq(extension, "7z")
        || str_eq(extension, "tar") || str_eq(extension, "gz") {
        Category::Archives
    } else if str_eq(extension, "py") || str_eq(extension, "js") || str_eq(extension, "cpp")
        || str_eq(extension, "rs") || str_eq(extension, "html") || str_eq(extension, "css") {
        Category::Scripts
    } else if str_eq(extension, "exe") || str_eq(extension, "msi") || str_eq(extension, "bat")
        || str_eq(extension, "sh") {
        Category::Executables
    } else {
        Category::Others
    }
}

/// The folder name that belongs to a category.
pub open spec fn spec_folder_name(c: Category) -> Seq<char> {
    match c {
        Category::Images => "Images"@,
        Category::Videos => "Videos"@,
        Category::Documents => "Documents"@,
        Category::Archives => "Archives"@,
        Category::Scripts => "Scripts"@,
        Category::Executables => "Executables"@,
        Category::Others => "Others"@,
    }
}

/// The position of a category in the fixed order of all seven.
pub open spec fn spec_category_index(c: Category) -> int {
    match c {
        Category::Images => 0,
        Category::Videos => 1,
        Category::Documents => 2,
        Category::Archives => 3,
        Category::Scripts => 4,
        Category::Executables => 5,
        Category::Others => 6,
    }
}

impl Category {
    /// The name of the subfolder this category's files are moved into.
    pub fn folder_name(&self) -> (r: &'static str)
        ensures
            r@ == spec_folder_name(*self),
    {
        match self {
            Category::Images => "Images",
            Category::Videos => "Videos",
            Category::Documents => "Documents",
            Category::Archives => "Archives",
            Category::Scripts => "Scripts",
            Category::Executables => "Executables",
            Category::Others => "Others",
        }
    }

    /// The position of this category in the fixed order of all seven.
    pub fn index(&self) -> (i: usize)
        ensures
            i == spec_category_index(*self),
            i < 7,
    {
        match self {
            Category::Images => 0,
            Category::Videos => 1,
            Category::Documents => 2,
            Category::Archives => 3,
            Category::Scripts => 4,
            Category::Executables => 5,
            Category::Others => 6,
        }
    }

    /// All seven categories, in their fixed order.
    pub fn all() -> (v: Vec<Category>)
        ensures
            v@.len() == 7,
            forall|i: int| 0 <= i < 7 ==> spec_category_index(#[trigger] v@[i]) == i,
    {
        let mut v: Vec<Category> = Vec::new();
        v.push(Category::Images);
        v.push(Category::Videos);
        v.push(Category::Documents);
        v.push(Category::Archives);
        v.push(Category::Scripts);
        v.push(Category::Executables);
        v.push(Category::Others);
        v
    }
}

} // verus!
