//! Rewriting the text of a manifest: new versions and new names are put in
//! place line by line, and everything else stays as it was written.
//!
//! The text is read once, from top to bottom. Table headers say what the
//! lines below them are about; the shapes of the lines themselves are told
//! apart by regular expressions.

use crate::error::{Error, Result};
use crate::lines::{
    assemble, contains_crlf, ends_with_newline, has_crlf, join_lines, lemma_lines_roundtrip, lines,
    separator, split_lines, texts, uniform_endings,
};
use crate::pattern::{captures, groups_view, regex_captures};
use crate::tables::{RenameMap, VersionMap};
use crate::text::{starts_with, to_chars, trim, trimmed};
use crate::version::{
    requirement_admits, requirement_reads, version_text, Version, VersionView,
};
use vstd::prelude::*;
use vstd::string::StringExecFns;

verus! {

/// A line `name = "…"`.
pub const NAME: &'static str = r#"^(\s*['"]?name['"]?\s*=\s*['"])([0-9A-Za-z-_]+)(['"].*)$"#;

/// A line `version = "…"`.
pub const VERSION: &'static str = r#"^(\s*['"]?version['"]?\s*=\s*['"])([^'"]+)(['"].*)$"#;

/// A line `package = "…"`.
pub const PACKAGE: &'static str =
    r#"^(\s*['"]?package['"]?\s*=\s*['"])([0-9A-Za-z-_]+)(['"].*)$"#;

/// The header of a table of dependencies.
pub const DEP_TABLE: &'static str = r#"^\[(target\.'?([^']+)'?\.|workspace\.)?dependencies]"#;

/// The header of the table of one dependency.
pub const DEP_ENTRY: &'static str =
    r#"^\[(target\.'?([^']+)'?\.|workspace\.)?dependencies\.([0-9A-Za-z-_]+)]"#;

/// The header of a table of build dependencies.
pub const BUILD_DEP_TABLE: &'static str =
    r#"^\[(target\.'?([^']+)'?\.|workspace\.)?build-dependencies]"#;

/// The header of the table of one build dependency.
pub const BUILD_DEP_ENTRY: &'static str =
    r#"^\[(target\.'?([^']+)'?\.|workspace\.)?build-dependencies\.([0-9A-Za-z-_]+)]"#;

/// The header of a table of development dependencies.
pub const DEV_DEP_TABLE: &'static str =
    r#"^\[(target\.'?([^']+)'?\.|workspace\.)?dev-dependencies]"#;

/// The header of the table of one development dependency.
pub const DEV_DEP_ENTRY: &'static str =
    r#"^\[(target\.'?([^']+)'?\.|workspace\.)?dev-dependencies\.([0-9A-Za-z-_]+)]"#;

/// A dependency given by its requirement alone: `name = "req"`.
pub const DEP_DIRECT_VERSION: &'static str =
    r#"^(\s*['"]?([0-9A-Za-z-_]+)['"]?\s*=\s*['"])([^'"]+)(['"].*)$"#;

/// A dependency given by an inline table with a `version` key.
pub const DEP_OBJ_VERSION: &'static str =
    r#"^(\s*['"]?([0-9A-Za-z-_]+)['"]?\s*=\s*\{.*['"]?version['"]?\s*=\s*['"])([^'"]+)(['"].*}.*)$"#;

/// A dependency given by an inline table with a `version` key and, after
/// it, a `package` key.
pub const DEP_OBJ_RENAME_VERSION: &'static str =
    r#"^(\s*['"]?([0-9A-Za-z-_]+)['"]?\s*=\s*\{.*['"]?version['"]?\s*=\s*['"])([^'"]+)(['"].*['"]?package['"]?\s*=\s*['"]([0-9A-Za-z-_]+)['"].*}.*)$"#;

/// A dependency given by an inline table with a `package` key and, after
/// it, a `version` key.
pub const DEP_OBJ_RENAME_BEFORE_VERSION: &'static str =
    r#"^(\s*['"]?[0-9A-Za-z-_]+['"]?\s*=\s*\{.*['"]?package['"]?\s*=\s*['"]([0-9A-Za-z-_]+)['"].*['"]?version['"]?\s*=\s*['"])([^'"]+)(['"].*}.*)$"#;

/// A dependency given by its requirement alone, the requirement with its
/// quotes.
pub const DEP_DIRECT_NAME: &'static str =
    r#"^(\s*['"]?([0-9A-Za-z-_]+)['"]?\s*=\s*)(['"][^'"]+['"])(.*)$"#;

/// A dependency given by an inline table.
pub const DEP_OBJ_NAME: &'static str =
    r#"^(\s*['"]?([0-9A-Za-z-_]+)['"]?\s*=\s*\{(.*[^\s])?)(\s*}.*)$"#;

/// A dependency given by an inline table with a `package` key.
pub const DEP_OBJ_RENAME_NAME: &'static str =
    r#"^(\s*['"]?[0-9A-Za-z-_]+['"]?\s*=\s*\{.*['"]?package['"]?\s*=\s*['"])([0-9A-Za-z-_]+)(['"].*}.*)$"#;

/// The key that marks a dependency as taken over from the workspace.
pub const WORKSPACE_KEY: &'static str = r#"['"]?workspace['"]?\s*=\s*true"#;

/// What the lines being read are about.
#[derive(Debug)]
pub enum Context {
    /// Nothing yet: no table header was read.
    Beginning,
    /// The package's own table.
    Package,
    /// A table of dependencies.
    Dependencies,
    /// The table of the dependency of this name.
    DependencyEntry(String),
    /// A table that is of no concern.
    DontCare,
}

/// The mathematical value of a [`Context`].
pub enum ContextView {
    Beginning,
    Package,
    Dependencies,
    DependencyEntry(Seq<char>),
    DontCare,
}

impl View for Context {
    type V = ContextView;

    open spec fn view(&self) -> ContextView {
        match self {
            Context::Beginning => ContextView::Beginning,
            Context::Package => ContextView::Package,
            Context::Dependencies => ContextView::Dependencies,
            Context::DependencyEntry(name) => ContextView::DependencyEntry(name@),
            Context::DontCare => ContextView::DontCare,
        }
    }
}

/// What the rewriting is to put in place.
pub enum Edit<'a> {
    /// New versions: that of the package `pkg_name` itself and those of its
    /// dependencies. With `exact` a requirement becomes `=` and the version;
    /// without, it is replaced only where it does not admit the version.
    Versions { pkg_name: &'a str, versions: &'a VersionMap, exact: bool },
    /// New names: that of the package `pkg_name` itself and those of its
    /// dependencies.
    Names { pkg_name: &'a str, renames: &'a RenameMap },
}

/// The mathematical value of an [`Edit`].
pub enum EditView {
    Versions { pkg_name: Seq<char>, versions: Map<Seq<char>, VersionView>, exact: bool },
    Names { pkg_name: Seq<char>, renames: Map<Seq<char>, Seq<char>> },
}

impl<'a> View for Edit<'a> {
    type V = EditView;

    open spec fn view(&self) -> EditView {
        match self {
            Edit::Versions { pkg_name, versions, exact } => EditView::Versions {
                pkg_name: pkg_name@,
                versions: versions@,
                exact: *exact,
            },
            Edit::Names { pkg_name, renames } => EditView::Names {
                pkg_name: pkg_name@,
                renames: renames@,
            },
        }
    }
}

/// What becomes of one line.
pub enum Outcome {
    /// The line stays as it is.
    Keep,
    /// The line is replaced by this text.
    Replace(Seq<char>),
    /// The line holds a requirement that cannot be read.
    Fail,
}

/// What a table header announces.
pub enum Header {
    /// The line is no header.
    NoHeader,
    Package,
    Dependencies,
    DependencyEntry(Seq<char>),
    /// Some other table.
    Other,
}

/// Whether `pattern` matches somewhere in `text`.
pub open spec fn found(pattern: Seq<char>, text: Seq<char>) -> bool {
    regex_captures(pattern, text) is Some
}

/// The text of capture group `i`; empty where the group took no part.
pub open spec fn group(groups: Seq<Option<Seq<char>>>, i: int) -> Seq<char> {
    if 0 <= i < groups.len() {
        match groups[i] {
            Some(s) => s,
            None => seq![],
        }
    } else {
        seq![]
    }
}

/// The text that capture group `i` of `pattern` takes in `text`.
pub open spec fn part(pattern: Seq<char>, text: Seq<char>, i: int) -> Seq<char> {
    group(regex_captures(pattern, text)->Some_0, i)
}

/// What the line announces, `trimmed` being the line without the white
/// space around it. Tables of development dependencies count only with
/// `dev_deps`.
pub open spec fn header(trimmed: Seq<char>, dev_deps: bool) -> Header {
    if "[package]"@.is_prefix_of(trimmed) || "[workspace.package]"@.is_prefix_of(trimmed) {
        Header::Package
    } else if found(DEP_TABLE@, trimmed) || found(BUILD_DEP_TABLE@, trimmed) || (dev_deps && found(
        DEV_DEP_TABLE@,
        trimmed,
    )) {
        Header::Dependencies
    } else if found(DEP_ENTRY@, trimmed) {
        Header::DependencyEntry(part(DEP_ENTRY@, trimmed, 3))
    } else if found(BUILD_DEP_ENTRY@, trimmed) {
        Header::DependencyEntry(part(BUILD_DEP_ENTRY@, trimmed, 3))
    } else if dev_deps && found(DEV_DEP_ENTRY@, trimmed) {
        Header::DependencyEntry(part(DEV_DEP_ENTRY@, trimmed, 3))
    } else if trimmed.len() > 0 && trimmed[0] == '[' {
        Header::Other
    } else {
        Header::NoHeader
    }
}

/// The requirement `req` of a dependency on `name`, between `prefix` and
/// `suffix`, under the new versions.
pub open spec fn requirement_edit(
    versions: Map<Seq<char>, VersionView>,
    exact: bool,
    name: Seq<char>,
    prefix: Seq<char>,
    req: Seq<char>,
    suffix: Seq<char>,
) -> Outcome {
    if !versions.contains_key(name) {
        Outcome::Keep
    } else if exact {
        Outcome::Replace(prefix + "="@ + version_text(versions[name]) + suffix)
    } else if !requirement_reads(req) {
        Outcome::Fail
    } else if !requirement_admits(req, versions[name]) {
        Outcome::Replace(prefix + version_text(versions[name]) + suffix)
    } else {
        Outcome::Keep
    }
}

/// The version of the package `name`, between `prefix` and `suffix`, under
/// the new versions: the new version takes its place where there is one.
pub open spec fn version_edit(
    versions: Map<Seq<char>, VersionView>,
    name: Seq<char>,
    prefix: Seq<char>,
    suffix: Seq<char>,
) -> Outcome {
    if versions.contains_key(name) {
        Outcome::Replace(prefix + version_text(versions[name]) + suffix)
    } else {
        Outcome::Keep
    }
}

/// The name `name` of a package, between `prefix` and `suffix`, under the
/// new names: the new name takes its place where there is one.
pub open spec fn name_edit(
    renames: Map<Seq<char>, Seq<char>>,
    name: Seq<char>,
    prefix: Seq<char>,
    suffix: Seq<char>,
) -> Outcome {
    if renames.contains_key(name) {
        Outcome::Replace(prefix + renames[name] + suffix)
    } else {
        Outcome::Keep
    }
}

/// A dependency on `name` that is given by its requirement alone, under
/// the new names. `req` is the requirement with its quotes, `prefix` what
/// stands before it and `suffix` what stands after it. Where the package
/// has a new name the requirement becomes an inline table that holds the
/// requirement and the new name.
pub open spec fn inline_table_edit(
    renames: Map<Seq<char>, Seq<char>>,
    name: Seq<char>,
    prefix: Seq<char>,
    req: Seq<char>,
    suffix: Seq<char>,
) -> Outcome {
    if renames.contains_key(name) {
        Outcome::Replace(
            prefix + "{ version = "@ + req + ", package = \""@ + renames[name] + "\" }"@ + suffix,
        )
    } else {
        Outcome::Keep
    }
}

/// A dependency on `name` that is given by an inline table without a
/// `package` key, under the new names. `prefix` is the line up to the last
/// entry of the table, `suffix` the rest from the closing brace on. Where
/// the package has a new name the table gets a `package` key at its end.
pub open spec fn package_key_edit(
    renames: Map<Seq<char>, Seq<char>>,
    name: Seq<char>,
    prefix: Seq<char>,
    suffix: Seq<char>,
) -> Outcome {
    if renames.contains_key(name) {
        Outcome::Replace(prefix + ", package = \""@ + renames[name] + "\""@ + suffix)
    } else {
        Outcome::Keep
    }
}

/// A line of the package's own table under the new versions.
pub open spec fn package_version_line(
    versions: Map<Seq<char>, VersionView>,
    pkg_name: Seq<char>,
    line: Seq<char>,
) -> Outcome {
    if found(VERSION@, line) {
        version_edit(versions, pkg_name, part(VERSION@, line, 1), part(VERSION@, line, 3))
    } else {
        Outcome::Keep
    }
}

/// The name of the package that a line of a table of dependencies gives a
/// requirement for, if the line has one of the known shapes.
pub open spec fn required_package(line: Seq<char>) -> Option<Seq<char>> {
    if found(WORKSPACE_KEY@, line) {
        None
    } else if found(DEP_DIRECT_VERSION@, line) {
        Some(part(DEP_DIRECT_VERSION@, line, 2))
    } else if found(DEP_OBJ_RENAME_VERSION@, line) {
        Some(part(DEP_OBJ_RENAME_VERSION@, line, 5))
    } else if found(DEP_OBJ_RENAME_BEFORE_VERSION@, line) {
        Some(part(DEP_OBJ_RENAME_BEFORE_VERSION@, line, 2))
    } else if found(DEP_OBJ_VERSION@, line) {
        Some(part(DEP_OBJ_VERSION@, line, 2))
    } else {
        None
    }
}

/// A line of a table of dependencies under the new versions. A line that
/// takes the dependency over from the workspace stays as it is.
pub open spec fn dependency_version_line(
    versions: Map<Seq<char>, VersionView>,
    exact: bool,
    line: Seq<char>,
) -> Outcome {
    if found(WORKSPACE_KEY@, line) {
        Outcome::Keep
    } else if found(DEP_DIRECT_VERSION@, line) {
        let p = DEP_DIRECT_VERSION@;
        requirement_edit(
            versions,
            exact,
            part(p, line, 2),
            part(p, line, 1),
            part(p, line, 3),
            part(p, line, 4),
        )
    } else if found(DEP_OBJ_RENAME_VERSION@, line) {
        let p = DEP_OBJ_RENAME_VERSION@;
        requirement_edit(
            versions,
            exact,
            part(p, line, 5),
            part(p, line, 1),
            part(p, line, 3),
            part(p, line, 4),
        )
    } else if found(DEP_OBJ_RENAME_BEFORE_VERSION@, line) {
        let p = DEP_OBJ_RENAME_BEFORE_VERSION@;
        requirement_edit(
            versions,
            exact,
            part(p, line, 2),
            part(p, line, 1),
            part(p, line, 3),
            part(p, line, 4),
        )
    } else if found(DEP_OBJ_VERSION@, line) {
        let p = DEP_OBJ_VERSION@;
        requirement_edit(
            versions,
            exact,
            part(p, line, 2),
            part(p, line, 1),
            part(p, line, 3),
            part(p, line, 4),
        )
    } else {
        Outcome::Keep
    }
}

/// A line of the table of the dependency `dep` under the new versions.
pub open spec fn entry_version_line(
    versions: Map<Seq<char>, VersionView>,
    exact: bool,
    dep: Seq<char>,
    line: Seq<char>,
) -> Outcome {
    if found(PACKAGE@, line) {
        Outcome::Keep
    } else if found(VERSION@, line) {
        let p = VERSION@;
        requirement_edit(versions, exact, dep, part(p, line, 1), part(p, line, 2), part(p, line, 3))
    } else {
        Outcome::Keep
    }
}

/// A line of the package's own table under the new names.
pub open spec fn package_name_line(
    renames: Map<Seq<char>, Seq<char>>,
    pkg_name: Seq<char>,
    line: Seq<char>,
) -> Outcome {
    if found(NAME@, line) {
        name_edit(renames, pkg_name, part(NAME@, line, 1), part(NAME@, line, 3))
    } else {
        Outcome::Keep
    }
}

/// The name of the package that a line of a table of dependencies declares
/// a dependency on, if the line has one of the known shapes.
pub open spec fn declared_package(line: Seq<char>) -> Option<Seq<char>> {
    if found(WORKSPACE_KEY@, line) {
        None
    } else if found(DEP_DIRECT_NAME@, line) {
        Some(part(DEP_DIRECT_NAME@, line, 2))
    } else if found(DEP_OBJ_RENAME_NAME@, line) {
        Some(part(DEP_OBJ_RENAME_NAME@, line, 2))
    } else if found(DEP_OBJ_NAME@, line) {
        Some(part(DEP_OBJ_NAME@, line, 2))
    } else {
        None
    }
}

/// A line of a table of dependencies under the new names. A requirement
/// alone becomes an inline table with the requirement and the new name; an
/// inline table has its `package` key rewritten, or gets one. A line that
/// takes the dependency over from the workspace stays as it is.
pub open spec fn dependency_name_line(renames: Map<Seq<char>, Seq<char>>, line: Seq<char>) -> Outcome {
    if found(WORKSPACE_KEY@, line) {
        Outcome::Keep
    } else if found(DEP_DIRECT_NAME@, line) {
        let p = DEP_DIRECT_NAME@;
        inline_table_edit(
            renames,
            part(p, line, 2),
            part(p, line, 1),
            part(p, line, 3),
            part(p, line, 4),
        )
    } else if found(DEP_OBJ_RENAME_NAME@, line) {
        let p = DEP_OBJ_RENAME_NAME@;
        name_edit(renames, part(p, line, 2), part(p, line, 1), part(p, line, 3))
    } else if found(DEP_OBJ_NAME@, line) {
        let p = DEP_OBJ_NAME@;
        package_key_edit(renames, part(p, line, 2), part(p, line, 1), part(p, line, 4))
    } else {
        Outcome::Keep
    }
}

/// A line of the table of one dependency under the new names.
pub open spec fn entry_name_line(renames: Map<Seq<char>, Seq<char>>, line: Seq<char>) -> Outcome {
    if found(PACKAGE@, line) {
        name_edit(renames, part(PACKAGE@, line, 2), part(PACKAGE@, line, 1), part(PACKAGE@, line, 3))
    } else {
        Outcome::Keep
    }
}

/// What becomes of a line that is no header.
pub open spec fn content_line(edit: EditView, context: ContextView, line: Seq<char>) -> Outcome {
    match (edit, context) {
        (EditView::Versions { pkg_name, versions, exact }, ContextView::Package) => {
            package_version_line(versions, pkg_name, line)
        },
        (EditView::Versions { pkg_name, versions, exact }, ContextView::Dependencies) => {
            dependency_version_line(versions, exact, line)
        },
        (EditView::Versions { pkg_name, versions, exact }, ContextView::DependencyEntry(dep)) => {
            entry_version_line(versions, exact, dep, line)
        },
        (EditView::Names { pkg_name, renames }, ContextView::Package) => {
            package_name_line(renames, pkg_name, line)
        },
        (EditView::Names { pkg_name, renames }, ContextView::Dependencies) => {
            dependency_name_line(renames, line)
        },
        (EditView::Names { pkg_name, renames }, ContextView::DependencyEntry(dep)) => {
            entry_name_line(renames, line)
        },
        _ => Outcome::Keep,
    }
}

/// The context after a line that is no header. In the table of one
/// dependency a `package` key tells the versions whose requirement the
/// table holds, and ends the table for the names.
pub open spec fn context_after(edit: EditView, context: ContextView, line: Seq<char>) -> ContextView {
    match context {
        ContextView::DependencyEntry(dep) => {
            if found(PACKAGE@, line) {
                match edit {
                    EditView::Versions { .. } => ContextView::DependencyEntry(
                        part(PACKAGE@, line, 2),
                    ),
                    EditView::Names { .. } => ContextView::DontCare,
                }
            } else {
                context
            }
        },
        _ => context,
    }
}

/// The line that gives a dependency the package `name`.
pub open spec fn package_key(name: Seq<char>) -> Seq<char> {
    "package = \""@ + name + "\""@
}

/// The lines that are due when the table of a dependency ends: under the
/// new names a `package` key for a dependency that is renamed.
pub open spec fn pending(edit: EditView, context: ContextView) -> Seq<Seq<char>> {
    match (edit, context) {
        (EditView::Names { pkg_name, renames }, ContextView::DependencyEntry(dep)) => {
            if renames.contains_key(dep) {
                seq![package_key(renames[dep])]
            } else {
                seq![]
            }
        },
        _ => seq![],
    }
}

/// What reading one line gives: the context for the next line and the lines
/// to put out, or `None` where the line holds a requirement that cannot be
/// read.
pub open spec fn step(edit: EditView, dev_deps: bool, context: ContextView, line: Seq<char>) -> Option<
    (ContextView, Seq<Seq<char>>),
> {
    match header(trim(line), dev_deps) {
        Header::Package => Some((ContextView::Package, seq![line])),
        Header::Dependencies => Some((ContextView::Dependencies, seq![line])),
        Header::DependencyEntry(name) => Some((ContextView::DependencyEntry(name), seq![line])),
        Header::Other => Some((ContextView::DontCare, pending(edit, context).push(line))),
        Header::NoHeader => match content_line(edit, context, line) {
            Outcome::Keep => Some((context_after(edit, context, line), seq![line])),
            Outcome::Replace(text) => Some((context_after(edit, context, line), seq![text])),
            Outcome::Fail => None,
        },
    }
}

/// The lines that reading `rest` in `context` puts out, with the lines due
/// at the end; `None` where a requirement cannot be read.
pub open spec fn scan(
    edit: EditView,
    dev_deps: bool,
    context: ContextView,
    rest: Seq<Seq<char>>,
) -> Option<Seq<Seq<char>>>
    decreases rest.len(),
{
    if rest.len() == 0 {
        Some(pending(edit, context))
    } else {
        match step(edit, dev_deps, context, rest[0]) {
            None => None,
            Some((next, out)) => match scan(edit, dev_deps, next, rest.drop_first()) {
                None => None,
                Some(more) => Some(out + more),
            },
        }
    }
}

/// The rewritten text of `manifest`: its lines as [`scan`] gives them, put
/// together with the line ending of the manifest (carriage return and line
/// feed if the manifest holds that pair anywhere), and ended the way the
/// manifest ends. `None` where a requirement cannot be read.
pub open spec fn rewritten(edit: EditView, dev_deps: bool, manifest: Seq<char>) -> Option<Seq<char>> {
    match scan(edit, dev_deps, ContextView::Beginning, lines(manifest)) {
        None => None,
        Some(out) => Some(
            assemble(out, separator(has_crlf(manifest)), ends_with_newline(manifest)),
        ),
    }
}

/// A table header as it was read.
pub enum Heading {
    NoHeader,
    Package,
    Dependencies,
    DependencyEntry(String),
    Other,
}

impl View for Heading {
    type V = Header;

    open spec fn view(&self) -> Header {
        match self {
            Heading::NoHeader => Header::NoHeader,
            Heading::Package => Header::Package,
            Heading::Dependencies => Header::Dependencies,
            Heading::DependencyEntry(name) => Header::DependencyEntry(name@),
            Heading::Other => Header::Other,
        }
    }
}

/// Whether the result `r` of editing a line is the outcome `o`.
pub open spec fn is_outcome(r: Result<Option<String>>, o: Outcome) -> bool {
    match o {
        Outcome::Keep => r is Ok && r->Ok_0 is None,
        Outcome::Replace(text) => r is Ok && r->Ok_0 is Some && r->Ok_0->Some_0@ == text,
        Outcome::Fail => r is Err && (r->Err_0 is Semver || r->Err_0 is NumberTooLarge),
    }
}

/// The text of capture group `i`; empty where the group took no part.
pub fn group_text(groups: &Vec<Option<String>>, i: usize) -> (r: String)
    ensures
        r@ == group(groups_view(groups@), i as int),
{
    if i < groups.len() {
        assert(groups_view(groups@)[i as int] == match groups@[i as int] {
            Some(s) => Some(s@),
            None => None,
        });
        match &groups[i] {
            Some(s) => s.clone(),
            None => String::new(),
        }
    } else {
        String::new()
    }
}

/// What the line announces; `clean` is the line without the white space
/// around it.
pub fn read_header(clean: &Vec<char>, dev_deps: bool) -> (r: Heading)
    ensures
        r@ == header(clean@, dev_deps),
{
    let package = to_chars("[package]");
    let workspace_package = to_chars("[workspace.package]");
    if starts_with(clean, &package) || starts_with(clean, &workspace_package) {
        return Heading::Package;
    }
    let text = crate::text::from_chars(clean);
    if captures(DEP_TABLE, text.as_str()).is_some() {
        return Heading::Dependencies;
    }
    if captures(BUILD_DEP_TABLE, text.as_str()).is_some() {
        return Heading::Dependencies;
    }
    if dev_deps && captures(DEV_DEP_TABLE, text.as_str()).is_some() {
        return Heading::Dependencies;
    }
    if let Some(groups) = captures(DEP_ENTRY, text.as_str()) {
        return Heading::DependencyEntry(group_text(&groups, 3));
    }
    if let Some(groups) = captures(BUILD_DEP_ENTRY, text.as_str()) {
        return Heading::DependencyEntry(group_text(&groups, 3));
    }
    if dev_deps {
        if let Some(groups) = captures(DEV_DEP_ENTRY, text.as_str()) {
            return Heading::DependencyEntry(group_text(&groups, 3));
        }
    }
    if clean.len() > 0 && clean[0] == '[' {
        Heading::Other
    } else {
        Heading::NoHeader
    }
}

/// The line that holds the requirement `req` of a dependency on `name`
/// between `prefix` and `suffix`, under the new versions.
pub fn edit_version(
    versions: &VersionMap,
    exact: bool,
    name: &str,
    prefix: &str,
    req: &str,
    suffix: &str,
) -> (r: Result<Option<String>>)
    ensures
        is_outcome(r, requirement_edit(versions@, exact, name@, prefix@, req@, suffix@)),
{
    match versions.get(name) {
        None => Ok(None),
        Some(new_version) => {
            let text = new_version.to_string();
            if exact {
                let mut out = String::from_str(prefix);
                out.append("=");
                out.append(text.as_str());
                out.append(suffix);
                Ok(Some(out))
            } else {
                match new_version.meets(req) {
                    Err(e) => Err(e),
                    Ok(true) => Ok(None),
                    Ok(false) => {
                        let mut out = String::from_str(prefix);
                        out.append(text.as_str());
                        out.append(suffix);
                        Ok(Some(out))
                    },
                }
            }
        },
    }
}

/// The text `prefix`, `middle`, `suffix`.
pub fn between(prefix: &str, middle: &str, suffix: &str) -> (r: String)
    ensures
        r@ == prefix@ + middle@ + suffix@,
{
    let mut out = String::from_str(prefix);
    out.append(middle);
    out.append(suffix);
    out
}

/// A line of a table of dependencies under the new versions.
fn edit_dependency_version(versions: &VersionMap, exact: bool, line: &str) -> (r: Result<
    Option<String>,
>)
    ensures
        is_outcome(r, dependency_version_line(versions@, exact, line@)),
{
    if captures(WORKSPACE_KEY, line).is_some() {
        return Ok(None);
    }
    if let Some(g) = captures(DEP_DIRECT_VERSION, line) {
        return edit_version(
            versions,
            exact,
            group_text(&g, 2).as_str(),
            group_text(&g, 1).as_str(),
            group_text(&g, 3).as_str(),
            group_text(&g, 4).as_str(),
        );
    }
    if let Some(g) = captures(DEP_OBJ_RENAME_VERSION, line) {
        return edit_version(
            versions,
            exact,
            group_text(&g, 5).as_str(),
            group_text(&g, 1).as_str(),
            group_text(&g, 3).as_str(),
            group_text(&g, 4).as_str(),
        );
    }
    if let Some(g) = captures(DEP_OBJ_RENAME_BEFORE_VERSION, line) {
        return edit_version(
            versions,
            exact,
            group_text(&g, 2).as_str(),
            group_text(&g, 1).as_str(),
            group_text(&g, 3).as_str(),
            group_text(&g, 4).as_str(),
        );
    }
    if let Some(g) = captures(DEP_OBJ_VERSION, line) {
        return edit_version(
            versions,
            exact,
            group_text(&g, 2).as_str(),
            group_text(&g, 1).as_str(),
            group_text(&g, 3).as_str(),
            group_text(&g, 4).as_str(),
        );
    }
    Ok(None)
}

/// The line that holds the version of the package `name` between `prefix`
/// and `suffix`, under the new versions.
pub fn edit_own_version(versions: &VersionMap, name: &str, prefix: &str, suffix: &str) -> (r: Result<
    Option<String>,
>)
    ensures
        is_outcome(r, version_edit(versions@, name@, prefix@, suffix@)),
{
    match versions.get(name) {
        Some(new_version) => Ok(Some(between(prefix, new_version.to_string().as_str(), suffix))),
        None => Ok(None),
    }
}

/// The line that holds the name `name` of a package between `prefix` and
/// `suffix`, under the new names.
pub fn edit_name(renames: &RenameMap, name: &str, prefix: &str, suffix: &str) -> (r: Result<
    Option<String>,
>)
    ensures
        is_outcome(r, name_edit(renames@, name@, prefix@, suffix@)),
{
    match renames.get(name) {
        Some(new_name) => Ok(Some(between(prefix, new_name.as_str(), suffix))),
        None => Ok(None),
    }
}

/// The line that gives a dependency on `name` by its requirement alone,
/// under the new names; `req` is the requirement with its quotes.
pub fn edit_to_inline_table(
    renames: &RenameMap,
    name: &str,
    prefix: &str,
    req: &str,
    suffix: &str,
) -> (r: Result<Option<String>>)
    ensures
        is_outcome(r, inline_table_edit(renames@, name@, prefix@, req@, suffix@)),
{
    match renames.get(name) {
        Some(new_name) => {
            let mut out = String::from_str(prefix);
            out.append("{ version = ");
            out.append(req);
            out.append(", package = \"");
            out.append(new_name.as_str());
            out.append("\" }");
            out.append(suffix);
            Ok(Some(out))
        },
        None => Ok(None),
    }
}

/// The line that gives a dependency on `name` by an inline table without a
/// `package` key, under the new names.
pub fn edit_package_key(renames: &RenameMap, name: &str, prefix: &str, suffix: &str) -> (r: Result<
    Option<String>,
>)
    ensures
        is_outcome(r, package_key_edit(renames@, name@, prefix@, suffix@)),
{
    match renames.get(name) {
        Some(new_name) => {
            let mut out = String::from_str(prefix);
            out.append(", package = \"");
            out.append(new_name.as_str());
            out.append("\"");
            out.append(suffix);
            Ok(Some(out))
        },
        None => Ok(None),
    }
}

/// The line that gives a dependency the package `name`.
pub fn package_key_line(name: &str) -> (r: String)
    ensures
        r@ == package_key(name@),
{
    between("package = \"", name, "\"")
}

/// A line of a table of dependencies under the new names.
fn edit_dependency_name(renames: &RenameMap, line: &str) -> (r: Result<Option<String>>)
    ensures
        is_outcome(r, dependency_name_line(renames@, line@)),
{
    if captures(WORKSPACE_KEY, line).is_some() {
        return Ok(None);
    }
    if let Some(g) = captures(DEP_DIRECT_NAME, line) {
        return edit_to_inline_table(
            renames,
            group_text(&g, 2).as_str(),
            group_text(&g, 1).as_str(),
            group_text(&g, 3).as_str(),
            group_text(&g, 4).as_str(),
        );
    }
    if let Some(g) = captures(DEP_OBJ_RENAME_NAME, line) {
        return edit_name(
            renames,
            group_text(&g, 2).as_str(),
            group_text(&g, 1).as_str(),
            group_text(&g, 3).as_str(),
        );
    }
    if let Some(g) = captures(DEP_OBJ_NAME, line) {
        return edit_package_key(
            renames,
            group_text(&g, 2).as_str(),
            group_text(&g, 1).as_str(),
            group_text(&g, 4).as_str(),
        );
    }
    Ok(None)
}

/// What becomes of a line that is no header, and the context after it.
pub fn edit_line(edit: &Edit, context: Context, line: &str) -> (r: (Result<Option<String>>, Context))
    ensures
        is_outcome(r.0, content_line(edit@, context@, line@)),
        r.1@ == context_after(edit@, context@, line@),
{
    match context {
        Context::Package => {
            let r = match edit {
                Edit::Versions { pkg_name, versions, exact } => {
                    match captures(VERSION, line) {
                        Some(g) => edit_own_version(
                            versions,
                            pkg_name,
                            group_text(&g, 1).as_str(),
                            group_text(&g, 3).as_str(),
                        ),
                        None => Ok(None),
                    }
                },
                Edit::Names { pkg_name, renames } => {
                    match captures(NAME, line) {
                        Some(g) => edit_name(
                            renames,
                            pkg_name,
                            group_text(&g, 1).as_str(),
                            group_text(&g, 3).as_str(),
                        ),
                        None => Ok(None),
                    }
                },
            };
            (r, Context::Package)
        },
        Context::Dependencies => {
            let r = match edit {
                Edit::Versions { pkg_name, versions, exact } => edit_dependency_version(
                    versions,
                    *exact,
                    line,
                ),
                Edit::Names { pkg_name, renames } => edit_dependency_name(renames, line),
            };
            (r, Context::Dependencies)
        },
        Context::DependencyEntry(dep) => {
            match edit {
                Edit::Versions { pkg_name, versions, exact } => {
                    if let Some(g) = captures(PACKAGE, line) {
                        (Ok(None), Context::DependencyEntry(group_text(&g, 2)))
                    } else if let Some(g) = captures(VERSION, line) {
                        let r = edit_version(
                            versions,
                            *exact,
                            dep.as_str(),
                            group_text(&g, 1).as_str(),
                            group_text(&g, 2).as_str(),
                            group_text(&g, 3).as_str(),
                        );
                        (r, Context::DependencyEntry(dep))
                    } else {
                        (Ok(None), Context::DependencyEntry(dep))
                    }
                },
                Edit::Names { pkg_name, renames } => {
                    if let Some(g) = captures(PACKAGE, line) {
                        let r = edit_name(
                            renames,
                            group_text(&g, 2).as_str(),
                            group_text(&g, 1).as_str(),
                            group_text(&g, 3).as_str(),
                        );
                        (r, Context::DontCare)
                    } else {
                        (Ok(None), Context::DependencyEntry(dep))
                    }
                },
            }
        },
        Context::Beginning => (Ok(None), Context::Beginning),
        Context::DontCare => (Ok(None), Context::DontCare),
    }
}

/// Puts out the lines that are due when the table of a dependency ends.
pub fn flush(edit: &Edit, context: &Context, new_lines: &mut Vec<String>)
    ensures
        texts(final(new_lines)@) == texts(old(new_lines)@) + pending(edit@, context@),
{
    let ghost before = texts(new_lines@);
    if let Context::DependencyEntry(dep) = context {
        if let Edit::Names { pkg_name, renames } = edit {
            if let Some(new_name) = renames.get(dep.as_str()) {
                let line = package_key_line(new_name.as_str());
                assert(texts(new_lines@.push(line)) =~= before + seq![line@]);
                new_lines.push(line);
                return ;
            }
        }
    }
    assert(before + Seq::<Seq<char>>::empty() =~= before);
}

/// `acc` before the lines of `rest`, where there are any.
pub open spec fn after(acc: Seq<Seq<char>>, rest: Option<Seq<Seq<char>>>) -> Option<
    Seq<Seq<char>>,
> {
    match rest {
        Some(more) => Some(acc + more),
        None => None,
    }
}

/// Rewrites the text of a manifest. Fails where a requirement that has to
/// be compared with a new version cannot be read, and only there: no
/// requirement that `semver` reads fails it.
pub fn parse(manifest: String, dev_deps: bool, edit: &Edit) -> (r: Result<String>)
    ensures
        match rewritten(edit@, dev_deps, manifest@) {
            Some(text) => r is Ok && r->Ok_0@ == text,
            None => r is Err && (r->Err_0 is Semver || r->Err_0 is NumberTooLarge),
        },
{
    let chars = to_chars(manifest.as_str());
    let all = split_lines(&chars);
    let ghost whole = scan(edit@, dev_deps, ContextView::Beginning, texts(all@));
    let mut context = Context::Beginning;
    let mut new_lines: Vec<String> = Vec::new();
    let mut i: usize = 0;
    proof {
        assert(texts(all@).skip(0) =~= texts(all@));
        assert(texts(new_lines@) =~= Seq::<Seq<char>>::empty());
        match whole {
            Some(more) => {
                assert(Seq::<Seq<char>>::empty() + more =~= more);
            },
            None => {},
        }
    }
    while i < all.len()
        invariant
            i <= all.len(),
            texts(all@) == lines(manifest@),
            whole == scan(edit@, dev_deps, ContextView::Beginning, texts(all@)),
            whole == after(
                texts(new_lines@),
                scan(edit@, dev_deps, context@, texts(all@).skip(i as int)),
            ),
        decreases all.len() - i,
    {
        let line = &all[i];
        let ghost rest = texts(all@).skip(i as int);
        let ghost before = texts(new_lines@);
        let ghost ctx = context@;
        proof {
            assert(rest[0] == line@);
            assert(rest.drop_first() =~= texts(all@).skip(i + 1));
        }
        let clean = trimmed(&to_chars(line.as_str()));
        match read_header(&clean, dev_deps) {
            Heading::Package => {
                context = Context::Package;
                new_lines.push(line.clone());
            },
            Heading::Dependencies => {
                context = Context::Dependencies;
                new_lines.push(line.clone());
            },
            Heading::DependencyEntry(name) => {
                context = Context::DependencyEntry(name);
                new_lines.push(line.clone());
            },
            Heading::Other => {
                flush(edit, &context, &mut new_lines);
                context = Context::DontCare;
                let ghost flushed = new_lines@;
                new_lines.push(line.clone());
                proof {
                    assert(texts(flushed) == before + pending(edit@, ctx));
                    assert(texts(new_lines@) =~= texts(flushed).push(line@));
                    assert(texts(flushed).push(line@) =~= before + pending(edit@, ctx).push(line@));
                }
            },
            Heading::NoHeader => {
                let (outcome, next) = edit_line(edit, context, line.as_str());
                context = next;
                match outcome {
                    Err(e) => {
                        return Err(e);
                    },
                    Ok(Some(text)) => {
                        assert(texts(new_lines@.push(text)) =~= before + seq![text@]);
                        new_lines.push(text);
                    },
                    Ok(None) => {
                        new_lines.push(line.clone());
                    },
                }
            },
        }
        proof {
            let s = step(edit@, dev_deps, ctx, line@);
            assert(s is Some);
            assert(s->Some_0.0 == context@);
            assert(texts(new_lines@) =~= before + s->Some_0.1);
            match scan(edit@, dev_deps, context@, texts(all@).skip(i + 1)) {
                Some(more) => {
                    assert(before + (s->Some_0.1 + more) =~= (before + s->Some_0.1) + more);
                },
                None => {},
            }
        }
        i += 1;
    }
    let ghost before = texts(new_lines@);
    flush(edit, &context, &mut new_lines);
    proof {
        assert(texts(all@).skip(all@.len() as int) =~= Seq::<Seq<char>>::empty());
        assert(whole == Some(texts(new_lines@)));
    }
    let crlf = contains_crlf(&chars);
    let sep = if crlf {
        "\r\n"
    } else {
        "\n"
    };
    proof {
        reveal_strlit("\r\n");
        reveal_strlit("\n");
        assert(sep@ =~= separator(crlf));
    }
    let mut out = join_lines(&new_lines, sep);
    if chars.len() > 0 && chars[chars.len() - 1] == '\n' {
        out.append(sep);
    }
    Ok(out)
}

/// Puts the new names of `renames` into the text of the manifest of the
/// package `pkg_name`: the package's own name and the names of its
/// dependencies, development dependencies included.
pub fn rename_packages(manifest: String, pkg_name: &str, renames: &RenameMap) -> (r: Result<
    String,
>)
    ensures
        r is Ok,
        Some(r->Ok_0@) == rewritten(
            EditView::Names { pkg_name: pkg_name@, renames: renames@ },
            true,
            manifest@,
        ),
{
    let edit = Edit::Names { pkg_name, renames };
    proof {
        lemma_names_never_fail(edit@, true, ContextView::Beginning, lines(manifest@));
    }
    parse(manifest, true, &edit)
}

/// Puts the new versions of `versions` into the text of the manifest of the
/// package `pkg_name`: the package's own version and the requirements of its
/// dependencies, development dependencies left out. Fails where a
/// requirement that has to be compared with a new version cannot be read,
/// and only there: no requirement that `semver` reads fails it, and with
/// `exact` or without new versions nothing does.
pub fn change_versions(
    manifest: String,
    pkg_name: &str,
    versions: &VersionMap,
    exact: bool,
) -> (r: Result<String>)
    ensures
        match rewritten(
            EditView::Versions { pkg_name: pkg_name@, versions: versions@, exact },
            false,
            manifest@,
        ) {
            Some(text) => r is Ok && r->Ok_0@ == text,
            None => r is Err && (r->Err_0 is Semver || r->Err_0 is NumberTooLarge),
        },
{
    let edit = Edit::Versions { pkg_name, versions, exact };
    parse(manifest, false, &edit)
}

/// Putting new names in place never fails.
pub proof fn lemma_names_never_fail(
    edit: EditView,
    dev_deps: bool,
    context: ContextView,
    rest: Seq<Seq<char>>,
)
    requires
        edit is Names,
    ensures
        scan(edit, dev_deps, context, rest) is Some,
    decreases rest.len(),
{
    if rest.len() > 0 {
        let s = step(edit, dev_deps, context, rest[0]);
        assert(s is Some);
        lemma_names_never_fail(edit, dev_deps, s->Some_0.0, rest.drop_first());
    }
}

/// Putting exact versions in place never fails: no requirement is read.
pub proof fn lemma_exact_never_fails(
    edit: EditView,
    dev_deps: bool,
    context: ContextView,
    rest: Seq<Seq<char>>,
)
    requires
        edit is Versions,
        edit->Versions_exact,
    ensures
        scan(edit, dev_deps, context, rest) is Some,
    decreases rest.len(),
{
    if rest.len() > 0 {
        let s = step(edit, dev_deps, context, rest[0]);
        assert(s is Some);
        lemma_exact_never_fails(edit, dev_deps, s->Some_0.0, rest.drop_first());
    }
}

/// The rewriting fails on no manifest whose requirements can all be read:
/// it fails only at a line that holds a requirement which has to be
/// compared with a new version and which `semver` does not read.
pub proof fn lemma_fails_only_at_unread_requirement(
    edit: EditView,
    dev_deps: bool,
    context: ContextView,
    line: Seq<char>,
)
    requires
        step(edit, dev_deps, context, line) is None,
    ensures
        edit is Versions,
        !edit->Versions_exact,
        concerns(edit, context, line) is Some,
        edit->Versions_versions.contains_key(concerns(edit, context, line)->Some_0),
        exists|prefix: Seq<char>, req: Seq<char>, suffix: Seq<char>|
            !requirement_reads(req) && #[trigger] requirement_edit(
                edit->Versions_versions,
                false,
                concerns(edit, context, line)->Some_0,
                prefix,
                req,
                suffix,
            ) == Outcome::Fail,
{
    let versions = edit->Versions_versions;
    match context {
        ContextView::Dependencies => {
            let p = if found(DEP_DIRECT_VERSION@, line) {
                DEP_DIRECT_VERSION@
            } else if found(DEP_OBJ_RENAME_VERSION@, line) {
                DEP_OBJ_RENAME_VERSION@
            } else if found(DEP_OBJ_RENAME_BEFORE_VERSION@, line) {
                DEP_OBJ_RENAME_BEFORE_VERSION@
            } else {
                DEP_OBJ_VERSION@
            };
            let name = concerns(edit, context, line)->Some_0;
            assert(requirement_edit(
                versions,
                false,
                name,
                part(p, line, 1),
                part(p, line, 3),
                part(p, line, 4),
            ) == Outcome::Fail);
        },
        ContextView::DependencyEntry(dep) => {
            let p = VERSION@;
            assert(requirement_edit(
                versions,
                false,
                dep,
                part(p, line, 1),
                part(p, line, 2),
                part(p, line, 3),
            ) == Outcome::Fail);
        },
        _ => {},
    }
}

/// Whether the edit has nothing to put in place.
pub open spec fn is_idle(edit: EditView) -> bool {
    match edit {
        EditView::Versions { pkg_name, versions, exact } => versions
            == Map::<Seq<char>, VersionView>::empty(),
        EditView::Names { pkg_name, renames } => renames == Map::<Seq<char>, Seq<char>>::empty(),
    }
}

/// Whether the edit holds something for the package called `name`.
pub open spec fn touches(edit: EditView, name: Seq<char>) -> bool {
    match edit {
        EditView::Versions { pkg_name, versions, exact } => versions.contains_key(name),
        EditView::Names { pkg_name, renames } => renames.contains_key(name),
    }
}

/// The package that a line is about: in the package's own table the package
/// itself; in a table of dependencies the package that the line requires or
/// declares; in the table of one dependency that dependency, or for the
/// names the package that its `package` key gives.
pub open spec fn concerns(edit: EditView, context: ContextView, line: Seq<char>) -> Option<
    Seq<char>,
> {
    match (edit, context) {
        (EditView::Versions { pkg_name, versions, exact }, ContextView::Package) => Some(pkg_name),
        (EditView::Names { pkg_name, renames }, ContextView::Package) => Some(pkg_name),
        (EditView::Versions { .. }, ContextView::Dependencies) => required_package(line),
        (EditView::Names { .. }, ContextView::Dependencies) => declared_package(line),
        (EditView::Versions { .. }, ContextView::DependencyEntry(dep)) => Some(dep),
        (EditView::Names { .. }, ContextView::DependencyEntry(dep)) => if found(PACKAGE@, line) {
            Some(part(PACKAGE@, line, 2))
        } else {
            None
        },
        _ => None,
    }
}

/// A line stays as it is unless the edit holds something for the package
/// that the line is about: what is put in place for one package never
/// alters a line about another.
pub proof fn lemma_unrelated_line_is_kept(edit: EditView, context: ContextView, line: Seq<char>)
    requires
        match concerns(edit, context, line) {
            Some(name) => !touches(edit, name),
            None => true,
        },
    ensures
        content_line(edit, context, line) == Outcome::Keep,
{
}

/// A line that is rewritten is about a package that the edit holds
/// something for.
pub proof fn lemma_rewritten_line_is_touched(edit: EditView, context: ContextView, line: Seq<char>)
    requires
        content_line(edit, context, line) != Outcome::Keep,
    ensures
        concerns(edit, context, line) is Some,
        touches(edit, concerns(edit, context, line)->Some_0),
{
}

/// With nothing to put in place, reading the lines puts them out as they
/// are.
pub proof fn lemma_idle_scan(
    edit: EditView,
    dev_deps: bool,
    context: ContextView,
    rest: Seq<Seq<char>>,
)
    requires
        is_idle(edit),
    ensures
        scan(edit, dev_deps, context, rest) == Some(rest),
    decreases rest.len(),
{
    if rest.len() > 0 {
        let s = step(edit, dev_deps, context, rest[0]);
        assert(pending(edit, context) =~= Seq::<Seq<char>>::empty());
        assert(content_line(edit, context, rest[0]) == Outcome::Keep);
        assert(s is Some && s->Some_0.1 =~= seq![rest[0]]);
        lemma_idle_scan(edit, dev_deps, s->Some_0.0, rest.drop_first());
        assert(seq![rest[0]] + rest.drop_first() =~= rest);
    } else {
        assert(pending(edit, context) =~= rest);
    }
}

/// With nothing to put in place, the manifest comes back unchanged,
/// character for character, provided its lines all end the same way.
pub proof fn lemma_idle_rewrite_is_identity(edit: EditView, dev_deps: bool, manifest: Seq<char>)
    requires
        is_idle(edit),
        uniform_endings(manifest, has_crlf(manifest)),
    ensures
        rewritten(edit, dev_deps, manifest) == Some(manifest),
{
    lemma_idle_scan(edit, dev_deps, ContextView::Beginning, lines(manifest));
    lemma_lines_roundtrip(manifest, has_crlf(manifest));
}

/// The context in which line `i` of `rest` is read, when the first line is
/// read in `context`.
pub open spec fn context_at(
    edit: EditView,
    dev_deps: bool,
    context: ContextView,
    rest: Seq<Seq<char>>,
    i: int,
) -> ContextView
    decreases i,
{
    if i <= 0 || rest.len() == 0 {
        context
    } else {
        match step(edit, dev_deps, context, rest[0]) {
            Some((next, out)) => context_at(edit, dev_deps, next, rest.drop_first(), i - 1),
            None => context,
        }
    }
}

/// What is put in place for one package leaves the lines about the others
/// in the text: a line of the manifest that is not about a package that
/// the edit holds something for is a line of what comes out.
pub proof fn lemma_unrelated_lines_stay(
    edit: EditView,
    dev_deps: bool,
    context: ContextView,
    rest: Seq<Seq<char>>,
    i: int,
)
    requires
        0 <= i < rest.len(),
        scan(edit, dev_deps, context, rest) is Some,
        match concerns(edit, context_at(edit, dev_deps, context, rest, i), rest[i]) {
            Some(name) => !touches(edit, name),
            None => true,
        },
    ensures
        scan(edit, dev_deps, context, rest)->Some_0.contains(rest[i]),
    decreases i,
{
    let s = step(edit, dev_deps, context, rest[0]);
    let out = s->Some_0.1;
    let more = scan(edit, dev_deps, s->Some_0.0, rest.drop_first())->Some_0;
    let all = scan(edit, dev_deps, context, rest)->Some_0;
    assert(all == out + more);
    if i == 0 {
        lemma_unrelated_line_is_kept(edit, context, rest[0]);
        assert(out[out.len() - 1] == rest[0]);
        assert(all[out.len() - 1] == rest[0]);
    } else {
        assert(rest.drop_first()[i - 1] == rest[i]);
        lemma_unrelated_lines_stay(edit, dev_deps, s->Some_0.0, rest.drop_first(), i - 1);
        let j = choose|j: int| 0 <= j < more.len() && more[j] == rest[i];
        assert(all[out.len() + j] == rest[i]);
    }
}

} // verus!
