//! Local variables and the names of modules.

use crate::analyzer::project_infomation::{
    file_name_of, parent_of, stem_of, Part, PathPart, SourcePath,
};
use crate::qualified_name::{same_text, text_of};
use vstd::prelude::*;
use vstd::string::*;

verus! {

/// A local variable as mathematics: its name, and the name of its type
/// where one could be read off the source.
pub ghost struct Binding {
    pub name: Seq<char>,
    pub variable_type: Option<Seq<char>>,
}

/// A local variable of the function that is being read.
pub struct VariableDefine {
    name: String,
    variable_type: Option<String>,
}

impl View for VariableDefine {
    type V = Binding;

    closed spec fn view(&self) -> Binding {
        Binding { name: self.name@, variable_type: text_of(self.variable_type) }
    }
}

impl VariableDefine {
    /// A variable of this name, with the name of its type where that is
    /// known.
    pub fn new(name: String, variable_type: Option<String>) -> (variable: VariableDefine)
        ensures
            variable@ == (Binding { name: name@, variable_type: text_of(variable_type) }),
    {
        VariableDefine { name, variable_type }
    }

    /// Whether the variable has this name.
    pub fn same_name(&self, other: &str) -> (same: bool)
        ensures
            same == (self@.name == other@),
    {
        crate::qualified_name::same_text(self.name.as_str(), other)
    }

    /// The name of the variable's type, where it is known.
    pub fn variable_type(&self) -> (name: Option<String>)
        ensures
            text_of(name) == self@.variable_type,
    {
        match &self.variable_type {
            Some(name) => Some(name.clone()),
            None => None,
        }
    }
}

/// Why the module of a file has no name.
#[derive(Debug, PartialEq, Eq, Clone, Copy)]
pub enum ErrorKind {
    /// A `lib.rs` or `main.rs` does not lie two directories deep.
    InvalidLocLibRs,
    /// The manifest names no package.
    InvalidPackageName,
    /// The path ends in no file name that is a text.
    InvalidFilename,
}

impl ErrorKind {
    /// The error in words.
    pub fn message(&self) -> (text: String)
        ensures
            text@ == match *self {
                ErrorKind::InvalidLocLibRs => "Invalid location from lib.rs"@,
                ErrorKind::InvalidPackageName => "Invalid package name in cargo.toml"@,
                ErrorKind::InvalidFilename => "Invalid filename"@,
            },
    {
        match self {
            ErrorKind::InvalidLocLibRs => String::from_str("Invalid location from lib.rs"),
            ErrorKind::InvalidPackageName => String::from_str(
                "Invalid package name in cargo.toml",
            ),
            ErrorKind::InvalidFilename => String::from_str("Invalid filename"),
        }
    }
}

/// Where the name of a file's module comes from, as mathematics.
pub ghost enum ClassPathModel {
    Package,
    Module(Seq<char>),
}

/// Where the name of a file's module comes from.
#[derive(Debug, PartialEq, Eq, Clone)]
pub enum ClassPath {
    /// The file is the root of a crate: its module is named after the
    /// package, as the manifest two directories above the file names it.
    Package,
    /// The module is named after the file.
    Module(String),
}

impl View for ClassPath {
    type V = ClassPathModel;

    open spec fn view(&self) -> ClassPathModel {
        match self {
            ClassPath::Package => ClassPathModel::Package,
            ClassPath::Module(name) => ClassPathModel::Module(name@),
        }
    }
}

/// The file is the root of a crate.
pub open spec fn crate_root(name: Seq<char>) -> bool {
    name == "lib.rs"@ || name == "main.rs"@
}

/// The name of the module of the file at a path. A path without a file
/// name has none. The root of a crate is named after its package, and has to
/// lie in a directory that lies in another; any other file gives its stem.
pub open spec fn class_path_of(parts: Seq<Part>) -> Result<ClassPathModel, ErrorKind> {
    match file_name_of(parts) {
        None => Err(ErrorKind::InvalidFilename),
        Some(name) => if crate_root(name) {
            match parent_of(parts) {
                None => Err(ErrorKind::InvalidLocLibRs),
                Some(directory) => match parent_of(directory) {
                    None => Err(ErrorKind::InvalidLocLibRs),
                    Some(_) => Ok(ClassPathModel::Package),
                },
            }
        } else {
            Ok(ClassPathModel::Module(stem_of(name)))
        },
    }
}

/// The view of what was found, or the error.
pub open spec fn class_path_view(found: Result<ClassPath, ErrorKind>) -> Result<
    ClassPathModel,
    ErrorKind,
> {
    match found {
        Ok(path) => Ok(path@),
        Err(error) => Err(error),
    }
}

/// Whether a component ends a path that has a directory above it.
fn ends_path(part: &PathPart) -> (ends: bool)
    ensures
        ends == !(part@ is Prefix || part@ is RootDir),
{
    match part {
        PathPart::Prefix => false,
        PathPart::RootDir => false,
        _ => true,
    }
}

/// Checks to which module a file belongs.
pub fn get_full_class_path(file_path: &SourcePath) -> (found: Result<ClassPath, ErrorKind>)
    ensures
        class_path_view(found) == class_path_of(file_path@),
{
    let file_name = match file_path.file_name() {
        Some(name) => name,
        None => {
            return Err(ErrorKind::InvalidFilename);
        },
    };
    if same_text(file_name, "lib.rs") || same_text(file_name, "main.rs") {
        let count = file_path.parts.len();
        // The file name is the last component; the directory is what stands
        // before it, and the directory above is what stands before that.
        if count < 2 || !ends_path(&file_path.parts[count - 2]) {
            proof {
                let directory = file_path@.drop_last();
                if count >= 2 {
                    assert(directory.last() == file_path.parts@[count - 2]@);
                }
            }
            return Err(ErrorKind::InvalidLocLibRs);
        }
        proof {
            let directory = file_path@.drop_last();
            assert(directory.last() == file_path.parts@[count - 2]@);
        }
        return Ok(ClassPath::Package);
    }
    match file_path.file_stem() {
        Some(stem) => Ok(ClassPath::Module(stem)),
        None => Err(ErrorKind::InvalidFilename),
    }
}

/// Gives the callers and callees of a file the name of its module.
pub struct NameResolver {
    full_class_path: String,
}

impl NameResolver {
    /// The name of the module.
    pub closed spec fn class_path(&self) -> Seq<char> {
        self.full_class_path@
    }

    /// A resolver for the file of a module.
    pub fn new(full_class_path: String) -> (resolver: NameResolver)
        ensures
            resolver.class_path() == full_class_path@,
    {
        NameResolver { full_class_path }
    }

    /// The name that stands in front of a caller of the file.
    pub fn resolve_caller(&self) -> (name: String)
        ensures
            name@ == self.class_path(),
    {
        self.full_class_path.clone()
    }

    /// The name that stands in front of a callee of the file.
    pub fn resolve_callee(&self) -> (name: String)
        ensures
            name@ == self.class_path(),
    {
        self.full_class_path.clone()
    }
}

} // verus!
