//! The decisions behind hexend's one-shot HTTP requests: which image file
//! a request may read or write, whether a new project can be created
//! where asked and what it holds, and how a directory is listed.

use vstd::prelude::*;

use crate::ordering::{insert_by, lex_le, lex_le_str, sort_by};
use crate::files::{is_filename_char, sanitize_filename, upload_ext, upload_extension};
use crate::mutations::{create_minimal_project, empty_location};
use crate::paths::{joined_path, path_starts_with, resolve, resolved, starts_with_path};
use crate::project::{strings_view, HexenProject, InlineProjectContent, ProjectContent, ProjectContentKind, ProjectView};
use crate::resolver::join;
use crate::slug::{to_lowercase, unicode_lowercase};
use crate::text::{chars_eq, chars_of, extend_from_str, has_str_at, string_from_chars};

verus! {

/// Why an image request is turned away.
#[derive(Debug, PartialEq, Eq, Structural)]
pub enum ImageRefusal {
    /// The directory or the file was not given.
    MissingDirOrFile,
    /// The file resolves outside the project directory.
    EscapesProject,
    /// The directory is not that of a project open on the server.
    NotOpen,
}

impl ImageRefusal {
    /// The reason, as the response says it.
    pub fn message(&self) -> (res: &'static str)
        ensures
            res@ == match self {
                ImageRefusal::MissingDirOrFile => "Missing dir or file query param"@,
                ImageRefusal::EscapesProject => "file escapes the project directory"@,
                ImageRefusal::NotOpen => "Not found"@,
            },
    {
        match self {
            ImageRefusal::MissingDirOrFile => "Missing dir or file query param",
            ImageRefusal::EscapesProject => "file escapes the project directory",
            ImageRefusal::NotOpen => "Not found",
        }
    }
}

/// Whether `dir` is one of `open_dirs`.
fn dir_is_open(open_dirs: &Vec<String>, dir: &str) -> (res: bool)
    ensures
        res == strings_view(open_dirs@).contains(dir@),
{
    let d = chars_of(dir);
    let mut i: usize = 0;
    while i < open_dirs.len()
        invariant
            i <= open_dirs@.len(),
            d@ == dir@,
            forall|j: int| 0 <= j < i ==> open_dirs@[j]@ != dir@,
        decreases open_dirs@.len() - i,
    {
        if chars_eq(chars_of(open_dirs[i].as_str()).as_slice(), d.as_slice()) {
            proof {
                assert(strings_view(open_dirs@)[i as int] == dir@);
            }
            return true;
        }
        i = i + 1;
    }
    proof {
        if strings_view(open_dirs@).contains(dir@) {
            let j = choose|j: int| 0 <= j < open_dirs@.len() && strings_view(open_dirs@)[j] == dir@;
            assert(open_dirs@[j]@ == dir@);
        }
    }
    false
}

/// The file an image read serves: `file` inside project directory `dir`,
/// both resolved against the working directory `cwd`; refused when either
/// is missing, when the file lies outside the directory, and when the
/// directory is none of `open_dirs`, those of the projects open on the
/// server.
pub fn image_read_target(cwd: &str, open_dirs: &Vec<String>, dir: Option<&str>, file: Option<&str>) -> (res:
    Result<String, ImageRefusal>)
    ensures
        match (dir, file) {
            (Some(d), Some(f)) => {
                let base = resolved(cwd@, d@);
                let target = resolved(base, f@);
                if !path_starts_with(target, base) {
                    res == Err::<String, ImageRefusal>(ImageRefusal::EscapesProject)
                } else if !strings_view(open_dirs@).contains(base) {
                    res == Err::<String, ImageRefusal>(ImageRefusal::NotOpen)
                } else {
                    res matches Ok(t) && t@ == target
                }
            },
            _ => res == Err::<String, ImageRefusal>(ImageRefusal::MissingDirOrFile),
        },
{
    match (dir, file) {
        (Some(d), Some(f)) => {
            let base = resolve(cwd, d);
            let target = resolve(base.as_str(), f);
            if !starts_with_path(target.as_str(), base.as_str()) {
                Err(ImageRefusal::EscapesProject)
            } else if !dir_is_open(open_dirs, base.as_str()) {
                Err(ImageRefusal::NotOpen)
            } else {
                Ok(target)
            }
        },
        _ => Err(ImageRefusal::MissingDirOrFile),
    }
}

/// Where an uploaded map image goes.
#[derive(Debug, PartialEq)]
pub struct UploadPlan {
    /// The project's `_assets` directory, to be created if missing.
    pub assets_dir: String,
    /// The file to write.
    pub target: String,
    /// The file as the project refers to it, relative to its directory.
    pub file: String,
}

/// Why an upload is turned away before anything is written.
#[derive(Debug, PartialEq)]
pub enum UploadRefusal {
    /// The extension is none of png, jpg, jpeg (in any case).
    UnsupportedExtension(String),
    /// The file would land outside the assets directory.
    EscapesProject,
    /// The directory is not that of a project open on the server.
    NotOpen,
}

pub open spec fn unsupported_extension_message(ext: Seq<char>) -> Seq<char> {
    "Unsupported image extension \""@ + ext + "\" — use png or jpg/jpeg"@
}

impl UploadRefusal {
    /// The reason, as the response says it.
    pub fn message(&self) -> (res: String)
        ensures
            res@ == match self {
                UploadRefusal::UnsupportedExtension(e) => unsupported_extension_message(e@),
                UploadRefusal::EscapesProject => "file escapes the project directory"@,
                UploadRefusal::NotOpen => "Not found"@,
            },
    {
        let mut out: Vec<char> = Vec::new();
        match self {
            UploadRefusal::UnsupportedExtension(e) => {
                extend_from_str(&mut out, "Unsupported image extension \"");
                extend_from_str(&mut out, e.as_str());
                extend_from_str(&mut out, "\" — use png or jpg/jpeg");
            },
            UploadRefusal::EscapesProject => {
                extend_from_str(&mut out, "file escapes the project directory");
            },
            UploadRefusal::NotOpen => {
                extend_from_str(&mut out, "Not found");
            },
        }
        string_from_chars(out.as_slice())
    }
}

/// A Location's stored image name: its id made file-safe, with the
/// stored extension.
pub open spec fn stored_image_name(location_id: Seq<char>, ext: Seq<char>) -> Seq<char> {
    location_id.map_values(|c: char| if is_filename_char(c) { c } else { '-' }) + seq!['.'] + ext
}

pub open spec fn assets_dir_name() -> Seq<char> {
    "_assets"@
}

/// Where the image uploaded for Location `location_id` of the project in
/// `dir` (resolved against `cwd`) is stored: always the same file per
/// Location, so a new upload replaces the old one. Refused for an
/// unsupported extension, then for a directory that is none of
/// `open_dirs` (those of the projects open on the server), then for a
/// file that would land outside the assets directory.
pub fn upload_plan(cwd: &str, open_dirs: &Vec<String>, dir: &str, location_id: &str, ext: &str) -> (res: Result<
    UploadPlan,
    UploadRefusal,
>)
    ensures
        match upload_extension(unicode_lowercase(ext@)) {
            None => res matches Err(UploadRefusal::UnsupportedExtension(e)) && e@ == ext@,
            Some(stored) => {
                let name = stored_image_name(location_id@, stored);
                let assets = joined_path(resolved(cwd@, dir@), assets_dir_name());
                let target = joined_path(assets, name);
                if !strings_view(open_dirs@).contains(resolved(cwd@, dir@)) {
                    res matches Err(UploadRefusal::NotOpen)
                } else if path_starts_with(target, assets) {
                    res matches Ok(p) && p.assets_dir@ == assets && p.target@ == target && p.file@
                        == "_assets/"@ + name
                } else {
                    res matches Err(UploadRefusal::EscapesProject)
                }
            },
        },
{
    let lower = to_lowercase(ext);
    let stored = match upload_ext(lower.as_str()) {
        Some(e) => e,
        None => {
            return Err(UploadRefusal::UnsupportedExtension(string_from_chars(chars_of(ext).as_slice())));
        },
    };
    let mut name: Vec<char> = Vec::new();
    extend_from_str(&mut name, sanitize_filename(location_id).as_str());
    extend_from_str(&mut name, ".");
    extend_from_str(&mut name, stored);
    proof {
        reveal_strlit(".");
        assert(name@ =~= stored_image_name(location_id@, stored@));
    }
    let name = string_from_chars(name.as_slice());
    let project_dir = resolve(cwd, dir);
    if !dir_is_open(open_dirs, project_dir.as_str()) {
        return Err(UploadRefusal::NotOpen);
    }
    let assets = join(project_dir.as_str(), "_assets");
    let target = join(assets.as_str(), name.as_str());
    if !starts_with_path(target.as_str(), assets.as_str()) {
        return Err(UploadRefusal::EscapesProject);
    }
    let mut file: Vec<char> = Vec::new();
    extend_from_str(&mut file, "_assets/");
    extend_from_str(&mut file, name.as_str());
    Ok(UploadPlan { assets_dir: assets, target, file: string_from_chars(file.as_slice()) })
}

/// A request to create a project file.
pub struct CreateProjectRequest {
    pub path: String,
    pub title: String,
    pub default_location_id: String,
    pub content: Option<ProjectContent>,
}

/// A directory to list; the home directory when absent or blank.
pub struct ListDirectoryQuery {
    pub path: Option<String>,
}

pub open spec fn already_exists_message(path: Seq<char>) -> Seq<char> {
    "\""@ + path + "\" already exists"@
}

pub open spec fn missing_dir_message(dir: Seq<char>) -> Seq<char> {
    "Directory \""@ + dir + "\" doesn't exist"@
}

/// Why a project cannot be created at `path`: it exists already, or its
/// directory `dir` does not; `None` when it can.
pub fn create_project_refusal(path: &str, path_exists: bool, dir: &str, dir_exists: bool) -> (res:
    Option<String>)
    ensures
        match res {
            Some(m) => if path_exists {
                m@ == already_exists_message(path@)
            } else {
                !dir_exists && m@ == missing_dir_message(dir@)
            },
            None => !path_exists && dir_exists,
        },
{
    let mut out: Vec<char> = Vec::new();
    if path_exists {
        extend_from_str(&mut out, "\"");
        extend_from_str(&mut out, path);
        extend_from_str(&mut out, "\" already exists");
        Some(string_from_chars(out.as_slice()))
    } else if !dir_exists {
        extend_from_str(&mut out, "Directory \"");
        extend_from_str(&mut out, dir);
        extend_from_str(&mut out, "\" doesn't exist");
        Some(string_from_chars(out.as_slice()))
    } else {
        None
    }
}

/// The project a create request asks for: its title and default Location,
/// with inline content unless the request names other content.
pub fn requested_project(request: CreateProjectRequest) -> (res: HexenProject)
    ensures
        res@ == (ProjectView {
            schema_version: 1,
            title: request.title@,
            default_location: request.default_location_id@,
            content: Some(
                match request.content {
                    Some(c) => c,
                    None => ProjectContent {
                        kind: Some(ProjectContentKind::Inline(InlineProjectContent {  })),
                    },
                },
            ),
            locations: seq![empty_location(request.default_location_id@)],
        }),
{
    let content = match request.content {
        Some(c) => c,
        None => ProjectContent { kind: Some(ProjectContentKind::Inline(InlineProjectContent {  })) },
    };
    create_minimal_project(request.title, request.default_location_id, content)
}

/// One listed directory entry.
#[derive(Debug, PartialEq)]
pub struct DirEntry {
    pub name: String,
    pub is_directory: bool,
    pub is_project: bool,
}

/// A directory's listing: where it is, its parent (none at the root), and
/// its subdirectories and project files.
#[derive(Debug, PartialEq)]
pub struct DirectoryListing {
    pub path: String,
    pub parent: Option<String>,
    pub entries: Vec<DirEntry>,
}

pub open spec fn project_suffix() -> Seq<char> {
    ".hexen.yml"@
}

pub open spec fn ends_with(s: Seq<char>, suffix: Seq<char>) -> bool {
    suffix.len() <= s.len() && s.skip(s.len() - suffix.len()) == suffix
}

/// The entry for `name`: hidden (dot) names, and files that are not
/// projects, are not listed.
pub open spec fn listed_entry(name: Seq<char>, is_directory: bool) -> Option<(Seq<char>, bool, bool)> {
    let is_project = ends_with(name, project_suffix());
    if name.len() > 0 && name[0] == '.' {
        None
    } else if !is_directory && !is_project {
        None
    } else {
        Some((name, is_directory, is_project))
    }
}

/// The listing entry for a directory item named `name`, if it is listed.
pub fn directory_entry(name: String, is_directory: bool) -> (res: Option<DirEntry>)
    ensures
        match listed_entry(name@, is_directory) {
            Some((n, d, p)) => res matches Some(e) && e.name@ == n && e.is_directory == d
                && e.is_project == p,
            None => res is None,
        },
{
    let v = chars_of(name.as_str());
    let n = v.len();
    proof {
        reveal_strlit(".hexen.yml");
    }
    let is_project = n >= 10 && has_str_at(v.as_slice(), n - 10, ".hexen.yml");
    proof {
        if n >= 10 {
            assert(v@.subrange(n - 10, n as int) =~= v@.skip(n - 10));
        }
    }
    if n > 0 && v[0] == '.' {
        return None;
    }
    if !is_directory && !is_project {
        return None;
    }
    Some(DirEntry { name, is_directory, is_project })
}

pub struct EntryView {
    pub name: Seq<char>,
    pub is_directory: bool,
    pub is_project: bool,
}

impl View for DirEntry {
    type V = EntryView;

    open spec fn view(&self) -> EntryView {
        EntryView { name: self.name@, is_directory: self.is_directory, is_project: self.is_project }
    }
}

/// Listing order: directories first, each group by name.
pub open spec fn entry_le(a: EntryView, b: EntryView) -> bool {
    ||| a.is_directory && !b.is_directory
    ||| a.is_directory == b.is_directory && lex_le(a.name, b.name)
}

/// Listing order, as an ordering.
pub open spec fn listing_order() -> spec_fn(EntryView, EntryView) -> bool {
    |a: EntryView, b: EntryView| entry_le(a, b)
}

pub open spec fn insert_entry(sorted: Seq<EntryView>, e: EntryView) -> Seq<EntryView> {
    insert_by(sorted, e, listing_order())
}

/// The entries stably sorted into listing order.
pub open spec fn in_listing_order(entries: Seq<EntryView>) -> Seq<EntryView> {
    sort_by(entries, listing_order())
}

pub open spec fn entries_view(v: Seq<DirEntry>) -> Seq<EntryView> {
    v.map_values(|e: DirEntry| e@)
}

fn entry_comes_no_later(a: &DirEntry, b: &DirEntry) -> (res: bool)
    ensures
        res == entry_le(a@, b@),
{
    (a.is_directory && !b.is_directory) || (a.is_directory == b.is_directory
        && lex_le_str(a.name.as_str(), b.name.as_str()))
}

/// The listing of directory `path` with parent `parent` and items
/// `entries`: the entries sorted, directories first; the parent dropped
/// when it is the directory itself.
pub fn directory_listing(path: String, parent: Option<String>, entries: Vec<DirEntry>) -> (res:
    DirectoryListing)
    ensures
        res.path == path,
        res.parent == match parent {
            Some(p) => if p@ == path@ {
                None
            } else {
                Some(p)
            },
            None => None,
        },
        entries_view(res.entries@) == in_listing_order(entries_view(entries@)),
{
    let ghost src = entries_view(entries@);
    let mut out: Vec<DirEntry> = Vec::new();
    let mut rest = entries;
    let ghost total = rest@;
    let mut taken: usize = 0;
    let n = rest.len();
    let mut pending: Vec<DirEntry> = Vec::new();
    while rest.len() > 0
        invariant
            rest@.len() + pending@.len() == n,
            total == entries@,
            src == entries_view(total),
            n == total.len(),
            rest@ == total.take(rest@.len() as int),
            pending@ == total.skip(rest@.len() as int).reverse(),
        decreases rest@.len(),
    {
        let e = rest.pop().unwrap();
        pending.push(e);
        proof {
            assert(rest@ =~= total.take(rest@.len() as int));
            assert(pending@ =~= total.skip(rest@.len() as int).reverse());
        }
    }
    proof {
        assert(total.skip(0) =~= total);
    }
    let mut i: usize = 0;
    while pending.len() > 0
        invariant
            pending@.len() + i == n,
            n == total.len(),
            src == entries_view(total),
            pending@ == total.skip(i as int).reverse(),
            entries_view(out@) == in_listing_order(src.take(i as int)),
        decreases pending@.len(),
    {
        let e = pending.pop().unwrap();
        proof {
            assert(e == total[i as int]);
            assert(pending@ =~= total.skip(i + 1).reverse());
            assert(src.take(i + 1).drop_last() =~= src.take(i as int));
            assert(src.take(i + 1).last() == e@);
        }
        let ghost cur = entries_view(out@);
        let mut j = out.len();
        proof {
            assert(cur.take(j as int) =~= cur);
            assert(cur.skip(j as int) =~= Seq::<EntryView>::empty());
        }
        while j > 0 && !entry_comes_no_later(&out[j - 1], &e)
            invariant
                j <= out@.len(),
                cur == entries_view(out@),
                insert_entry(cur, e@) == insert_entry(cur.take(j as int), e@) + cur.skip(j as int),
            decreases j,
        {
            proof {
                let t = cur.take(j as int);
                assert(t.last() == cur[j - 1]);
                assert(t.drop_last() =~= cur.take(j - 1));
                assert(cur.skip(j - 1) =~= seq![cur[j - 1]] + cur.skip(j as int));
                assert(insert_entry(cur.take(j - 1), e@).push(cur[j - 1]) + cur.skip(j as int)
                    =~= insert_entry(cur.take(j - 1), e@) + cur.skip(j - 1));
            }
            j = j - 1;
        }
        proof {
            let t = cur.take(j as int);
            if j > 0 {
                assert(t.last() == cur[j - 1]);
            }
        }
        let ghost ev = e@;
        out.insert(j, e);
        proof {
            assert(entries_view(out@) =~= cur.take(j as int).push(ev) + cur.skip(j as int));
        }
        i = i + 1;
    }
    proof {
        assert(src.take(n as int) =~= src);
    }
    let parent = match parent {
        Some(p) => if crate::text::chars_eq(chars_of(p.as_str()).as_slice(), chars_of(path.as_str()).as_slice()) {
            None
        } else {
            Some(p)
        },
        None => None,
    };
    DirectoryListing { path, parent, entries: out }
}

} // verus!
