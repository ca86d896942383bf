//! What the analysis knows of a project: its name and its source files.

use crate::qualified_name::{chars_of, join, join_segments, same_text, text_of, views};
use vstd::prelude::*;
use vstd::string::*;

verus! {

/// Why the name of a project could not be had.
#[derive(Debug, PartialEq, Eq, Clone, Copy)]
pub enum ErrorKind {
    /// The manifest names no package, or the name is not a text.
    InvalidPackageName,
}

impl ErrorKind {
    /// The error in words.
    pub fn message(&self) -> (text: String)
        ensures
            text@ == "Invalid package name in cargo.toml"@,
    {
        String::from_str("Invalid package name in cargo.toml")
    }
}

/// The texts of a manifest's document, each under the keys that lead to it
/// from table to table.
pub uninterp spec fn document_texts(document: toml::Value) -> Map<Seq<Seq<char>>, Seq<char>>;

/// The texts of the document that a manifest's text spells, and `None`
/// where the text spells no document.
pub uninterp spec fn manifest_texts(text: Seq<char>) -> Option<Map<Seq<Seq<char>>, Seq<char>>>;

/// A value of a manifest: a table, a list, a text, a number and so on.
#[verifier::external_type_specification]
#[verifier::external_body]
pub struct ExManifestValue(toml::Value);

/// The reason for which a text is no manifest.
#[verifier::external_type_specification]
#[verifier::external_body]
pub struct ExManifestError(toml::de::Error);

/// Reads a text as a manifest, with `toml::Value`'s `from_str`. What the
/// document holds depends on the text alone, and so does whether there is
/// one.
#[verifier::external_body]
fn parse_manifest(text: &str) -> (document: Result<toml::Value, toml::de::Error>)
    ensures
        match document {
            Ok(value) => manifest_texts(text@) == Some(document_texts(value)),
            Err(_) => manifest_texts(text@) is None,
        },
{
    text.parse::<toml::Value>()
}

/// Looks a key up in a table, with `toml::Value::get`. What is found holds
/// what the table holds under that key; nothing is found where the value is
/// no table or the table has no such key, and then it holds no text under
/// that key.
#[verifier::external_body]
fn entry_of<'a>(value: &'a toml::Value, key: &str) -> (entry: Option<&'a toml::Value>)
    ensures
        match entry {
            Some(found) => forall|path: Seq<Seq<char>>|
                (#[trigger] document_texts(*found).contains_key(path) <==> document_texts(
                    *value,
                ).contains_key(seq![key@] + path)) && (document_texts(*found).contains_key(path)
                    ==> document_texts(*found)[path] == document_texts(*value)[seq![key@]
                    + path]),
            None => forall|path: Seq<Seq<char>>|
                !document_texts(*value).contains_key(#[trigger] (seq![key@] + path)),
        },
{
    value.get(key)
}

/// The text of a value, with `toml::Value::as_str`: the value is a text
/// where it holds a text under no key at all.
#[verifier::external_body]
fn text_in<'a>(value: &'a toml::Value) -> (text: Option<&'a str>)
    ensures
        match text {
            Some(found) => document_texts(*value).contains_key(Seq::empty()) && document_texts(
                *value,
            )[Seq::empty()] == found@,
            None => !document_texts(*value).contains_key(Seq::empty()),
        },
{
    value.as_str()
}

/// Why a manifest gave no project name.
#[derive(Debug)]
pub enum ManifestError {
    /// The text is no manifest.
    Syntax(toml::de::Error),
    /// The manifest is in order, and lacks the name.
    Invalid(ErrorKind),
}

/// The keys under which a manifest holds the name of its package.
pub open spec fn package_name_keys() -> Seq<Seq<char>> {
    seq!["package"@, "name"@]
}

/// What is found is the name of the package among the texts of a
/// document: the text under `name` in the table under `package`, or the error
/// of an invalid manifest where there is no such text.
pub open spec fn names_package(
    found: Result<String, ManifestError>,
    texts: Map<Seq<Seq<char>>, Seq<char>>,
) -> bool {
    match found {
        Ok(name) => texts.contains_key(package_name_keys()) && texts[package_name_keys()]
            == name@,
        Err(ManifestError::Invalid(kind)) => !texts.contains_key(package_name_keys()) && kind
            == ErrorKind::InvalidPackageName,
        Err(ManifestError::Syntax(_)) => false,
    }
}

/// What is found is the name of the project that a manifest's text
/// describes: the name of the package in its document, or the error of
/// syntax where the text spells no document.
pub open spec fn names_project(found: Result<String, ManifestError>, text: Seq<char>) -> bool {
    match manifest_texts(text) {
        Some(texts) => names_package(found, texts),
        None => found is Err && found->Err_0 is Syntax,
    }
}

/// The name of the package in a document that was read.
pub fn project_name_in(document: &toml::Value) -> (found: Result<String, ManifestError>)
    ensures
        names_package(found, document_texts(*document)),
{
    let ghost texts = document_texts(*document);
    assert(seq!["package"@] + seq!["name"@] =~= package_name_keys());
    let package = match entry_of(document, "package") {
        Some(package) => package,
        None => {
            assert(!texts.contains_key(seq!["package"@] + seq!["name"@]));
            return Err(ManifestError::Invalid(ErrorKind::InvalidPackageName));
        },
    };
    let name = match entry_of(package, "name") {
        Some(name) => name,
        None => {
            assert(!document_texts(*package).contains_key(seq!["name"@] + Seq::empty()));
            assert(seq!["name"@] + Seq::<Seq<char>>::empty() =~= seq!["name"@]);
            assert(!document_texts(*package).contains_key(seq!["name"@]));
            return Err(ManifestError::Invalid(ErrorKind::InvalidPackageName));
        },
    };
    proof {
        assert(seq!["name"@] + Seq::<Seq<char>>::empty() =~= seq!["name"@]);
        assert(document_texts(*name).contains_key(Seq::empty()) <==> document_texts(
            *package,
        ).contains_key(seq!["name"@] + Seq::empty()));
        assert(document_texts(*package).contains_key(seq!["name"@]) <==> texts.contains_key(
            seq!["package"@] + seq!["name"@],
        ));
    }
    match text_in(name) {
        Some(text) => Ok(text.to_owned()),
        None => Err(ManifestError::Invalid(ErrorKind::InvalidPackageName)),
    }
}

/// The name of the project that the text of a manifest describes. A text
/// that is no manifest is an error of syntax; a manifest without the name
/// of a package is an invalid one.
pub fn get_project_name_from_cargo_toml(cargo_toml_content: &str) -> (found: Result<
    String,
    ManifestError,
>)
    ensures
        names_project(found, cargo_toml_content@),
{
    match parse_manifest(cargo_toml_content) {
        Ok(values) => project_name_in(&values),
        Err(error) => Err(ManifestError::Syntax(error)),
    }
}

/// The path of a module, held by its segments.
pub struct StructPath {
    path: Vec<String>,
}

impl View for StructPath {
    type V = Seq<Seq<char>>;

    closed spec fn view(&self) -> Seq<Seq<char>> {
        views(self.path@)
    }
}

impl StructPath {
    /// The path without segments.
    pub fn new() -> (path: StructPath)
        ensures
            path@ == Seq::<Seq<char>>::empty(),
    {
        let path = StructPath { path: Vec::new() };
        assert(path@ =~= Seq::<Seq<char>>::empty());
        path
    }

    /// Adds a last segment.
    pub fn push(&mut self, name: &str)
        ensures
            final(self)@ == old(self)@.push(name@),
    {
        self.path.push(String::from_str(name));
        assert(self@ =~= old(self)@.push(name@));
    }

    /// The text of the path: its segments joined by `::`.
    pub fn fullname(&self) -> (text: String)
        ensures
            text@ == join(self@),
    {
        join_segments(&self.path)
    }
}

/// One component of the path of a file, as mathematics.
pub ghost enum Part {
    Prefix,
    RootDir,
    CurDir,
    ParentDir,
    Normal(Option<Seq<char>>),
}

/// One component of the path of a file.
#[derive(Debug, PartialEq, Eq, Clone)]
pub enum PathPart {
    /// The prefix of a drive or of a share.
    Prefix,
    /// The root directory.
    RootDir,
    /// The directory itself, `.`.
    CurDir,
    /// The directory above, `..`.
    ParentDir,
    /// A directory or a file, with its name where the name is a text.
    Normal(Option<String>),
}

impl View for PathPart {
    type V = Part;

    open spec fn view(&self) -> Part {
        match self {
            PathPart::Prefix => Part::Prefix,
            PathPart::RootDir => Part::RootDir,
            PathPart::CurDir => Part::CurDir,
            PathPart::ParentDir => Part::ParentDir,
            PathPart::Normal(name) => Part::Normal(text_of(*name)),
        }
    }
}

/// The path of a file, by its components.
#[derive(Debug, PartialEq, Eq, Clone)]
pub struct SourcePath {
    pub parts: Vec<PathPart>,
}

impl View for SourcePath {
    type V = Seq<Part>;

    open spec fn view(&self) -> Seq<Part> {
        Seq::new(self.parts@.len(), |i: int| self.parts@[i]@)
    }
}

/// The path without its last component. There is none where the path is
/// empty or ends in a root or a prefix.
pub open spec fn parent_of(parts: Seq<Part>) -> Option<Seq<Part>> {
    if parts.len() == 0 {
        None
    } else {
        match parts.last() {
            Part::Prefix => None,
            Part::RootDir => None,
            _ => Some(parts.drop_last()),
        }
    }
}

/// The name of the file: the last component of the path where that is the
/// name of something, and where that name is a text.
pub open spec fn file_name_of(parts: Seq<Part>) -> Option<Seq<char>> {
    if parts.len() == 0 {
        None
    } else {
        match parts.last() {
            Part::Normal(Some(name)) => Some(name),
            _ => None,
        }
    }
}

/// The position of the last dot of a name before `end`, or -1 where there
/// is none.
pub open spec fn last_dot(name: Seq<char>, end: int) -> int
    decreases end,
{
    if end <= 0 {
        -1
    } else if name[end - 1] == '.' {
        end - 1
    } else {
        last_dot(name, end - 1)
    }
}

/// The stem of a file's name: the name before its last dot; the whole
/// name where it has no dot, or only one in front.
pub open spec fn stem_of(name: Seq<char>) -> Seq<char> {
    let dot = last_dot(name, name.len() as int);
    if dot <= 0 {
        name
    } else {
        name.take(dot)
    }
}

/// The extension of a file's name: what follows its last dot. There is
/// none where the name has no dot, or only one in front.
pub open spec fn extension_of(name: Seq<char>) -> Option<Seq<char>> {
    let dot = last_dot(name, name.len() as int);
    if dot <= 0 {
        None
    } else {
        Some(name.skip(dot + 1))
    }
}

/// The names of the first `count` components that have one.
pub open spec fn names_of(parts: Seq<Part>, count: nat) -> Seq<Seq<char>>
    decreases count,
{
    if count == 0 {
        Seq::empty()
    } else {
        let before = names_of(parts, (count - 1) as nat);
        match parts[count - 1] {
            Part::Normal(Some(name)) => before.push(name),
            _ => before,
        }
    }
}

/// The path of the module that a file lies in: the names of the
/// directories on the way to the file.
pub open spec fn struct_path_of(parts: Seq<Part>) -> Seq<Seq<char>> {
    match parent_of(parts) {
        Some(parent) => names_of(parent, parent.len()),
        None => Seq::empty(),
    }
}

/// The file is a source file: its name has the extension `rs`.
pub open spec fn source_file(parts: Seq<Part>) -> bool {
    match file_name_of(parts) {
        Some(name) => extension_of(name) == Some("rs"@),
        None => false,
    }
}

impl PathPart {
    /// A copy of the component.
    pub fn duplicate(&self) -> (copy: PathPart)
        ensures
            copy@ == self@,
    {
        match self {
            PathPart::Prefix => PathPart::Prefix,
            PathPart::RootDir => PathPart::RootDir,
            PathPart::CurDir => PathPart::CurDir,
            PathPart::ParentDir => PathPart::ParentDir,
            PathPart::Normal(name) => PathPart::Normal(
                match name {
                    Some(text) => Some(text.clone()),
                    None => None,
                },
            ),
        }
    }
}

impl SourcePath {
    /// The position of the last dot of the name, if it has one.
    fn find_last_dot(name: &Vec<char>) -> (dot: Option<usize>)
        ensures
            match dot {
                Some(at) => at == last_dot(name@, name@.len() as int) && at < name@.len(),
                None => last_dot(name@, name@.len() as int) == -1,
            },
    {
        let mut end: usize = name.len();
        while end > 0
            invariant
                end <= name.len(),
                last_dot(name@, name@.len() as int) == last_dot(name@, end as int),
            decreases end,
        {
            if name[end - 1] == '.' {
                return Some(end - 1);
            }
            end = end - 1;
        }
        None
    }

    /// The name of the file, where the path ends in a name that is a text.
    pub fn file_name(&self) -> (name: Option<&str>)
        ensures
            match name {
                Some(text) => file_name_of(self@) == Some(text@),
                None => file_name_of(self@) is None,
            },
    {
        if self.parts.len() == 0 {
            return None;
        }
        let last = &self.parts[self.parts.len() - 1];
        assert(self@.last() == last@);
        match last {
            PathPart::Normal(name) => match name {
                Some(text) => Some(text.as_str()),
                None => None,
            },
            _ => None,
        }
    }

    /// The stem of the file's name, where the path has a file name.
    pub fn file_stem(&self) -> (stem: Option<String>)
        ensures
            match stem {
                Some(text) => file_name_of(self@) is Some && text@ == stem_of(
                    file_name_of(self@)->0,
                ),
                None => file_name_of(self@) is None,
            },
    {
        match self.file_name() {
            Some(name) => {
                let chars = chars_of(name);
                match SourcePath::find_last_dot(&chars) {
                    Some(dot) => {
                        if dot == 0 {
                            Some(String::from_str(name))
                        } else {
                            Some(String::from_str(name.substring_char(0, dot)))
                        }
                    },
                    None => Some(String::from_str(name)),
                }
            },
            None => None,
        }
    }

    /// Whether the file is a source file.
    pub fn is_source_file(&self) -> (found: bool)
        ensures
            found == source_file(self@),
    {
        match self.file_name() {
            Some(name) => {
                let chars = chars_of(name);
                match SourcePath::find_last_dot(&chars) {
                    Some(dot) => {
                        if dot == 0 {
                            false
                        } else {
                            let length = chars.len();
                            same_text(name.substring_char(dot + 1, length), "rs")
                        }
                    },
                    None => false,
                }
            },
            None => false,
        }
    }

    /// A copy of the path.
    pub fn duplicate(&self) -> (copy: SourcePath)
        ensures
            copy@ == self@,
    {
        let mut parts: Vec<PathPart> = Vec::new();
        let mut i: usize = 0;
        while i < self.parts.len()
            invariant
                i <= self.parts.len(),
                parts.len() == i,
                forall|k: int| 0 <= k < i ==> parts@[k]@ == self.parts@[k]@,
            decreases self.parts.len() - i,
        {
            parts.push(self.parts[i].duplicate());
            i = i + 1;
        }
        let copy = SourcePath { parts };
        assert(copy@ =~= self@);
        copy
    }
}

/// A source file of the project.
pub struct SourceInfomation {
    file_path: SourcePath,
}

impl SourceInfomation {
    /// The components of the file's path.
    pub closed spec fn path(&self) -> Seq<Part> {
        self.file_path@
    }

    /// The source file at a path.
    pub fn new(file_path: &SourcePath) -> (source: SourceInfomation)
        ensures
            source.path() == file_path@,
    {
        SourceInfomation { file_path: file_path.duplicate() }
    }

    /// The path of the file.
    pub fn file_path(&self) -> (path: &SourcePath)
        ensures
            path@ == self.path(),
    {
        &self.file_path
    }

    /// The path of the module that the file lies in.
    pub fn get_struct_path(&self) -> (path: StructPath)
        ensures
            path@ == struct_path_of(self.path()),
    {
        let mut result = StructPath::new();
        let parts = &self.file_path.parts;
        if parts.len() == 0 {
            return result;
        }
        let last = parts.len() - 1;
        assert(self.path().last() == parts@[last as int]@);
        match &parts[last] {
            PathPart::Prefix => {
                return result;
            },
            PathPart::RootDir => {
                return result;
            },
            _ => {},
        }
        let ghost parent = self.path().drop_last();
        let mut i: usize = 0;
        while i < last
            invariant
                i <= last,
                last == parts.len() - 1,
                parts == &self.file_path.parts,
                parent == self.path().drop_last(),
                result@ == names_of(parent, i as nat),
            decreases last - i,
        {
            assert(parent[i as int] == parts@[i as int]@);
            match &parts[i] {
                PathPart::Normal(name) => match name {
                    Some(component_str) => {
                        result.push(component_str.as_str());
                    },
                    None => {},
                },
                _ => {},
            }
            i = i + 1;
        }
        result
    }
}

/// A project: its name and its source files.
pub struct ProjectInfomaion {
    project_name: String,
    source_files: Vec<SourcePath>,
}

impl ProjectInfomaion {
    /// The name of the project.
    pub closed spec fn name(&self) -> Seq<char> {
        self.project_name@
    }

    /// The source files of the project.
    pub closed spec fn files(&self) -> Vec<SourcePath> {
        self.source_files
    }

    /// The project that a manifest describes, with the files found in its
    /// directory. It fails as the reading of the name fails.
    pub fn new(cargo_toml_content: &str, source_files: Vec<SourcePath>) -> (project: Result<
        ProjectInfomaion,
        ManifestError,
    >)
        ensures
            match project {
                Ok(found) => manifest_texts(cargo_toml_content@) is Some && manifest_texts(
                    cargo_toml_content@,
                )->0.contains_key(package_name_keys()) && manifest_texts(
                    cargo_toml_content@,
                )->0[package_name_keys()] == found.name() && found.files() == source_files,
                Err(error) => names_project(Err(error), cargo_toml_content@),
            },
    {
        match get_project_name_from_cargo_toml(cargo_toml_content) {
            Ok(project_name) => Ok(ProjectInfomaion { project_name, source_files }),
            Err(error) => Err(error),
        }
    }

    /// The name of the project.
    pub fn project_name(&self) -> (name: &str)
        ensures
            name@ == self.name(),
    {
        self.project_name.as_str()
    }

    /// The source files of the project.
    pub fn source_files(&self) -> (files: &Vec<SourcePath>)
        ensures
            *files == self.files(),
    {
        &self.source_files
    }
}

} // verus!
