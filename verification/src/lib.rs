//! Wingman: a static site generator. This crate holds the logic that decides
//! where each source file of a site is written, how a page's front matter is
//! framed, and what the project files contain.

pub mod path;
pub mod text;
pub mod frontmatter;
pub mod json;
pub mod jsondoc;
pub mod forge;
pub mod cli;
pub mod init;
pub mod blog;
pub mod render;
pub mod engine;

use vstd::prelude::*;
use crate::path::{
    extension, has_parent_dir_from, join, join_text, lies_under, parse_components,
    path_extension, relative_components, render, render_from, set_extension,
    starts_with_components, with_extension, file_stem, is_prefix_of, components,
    path_file_stem, path_starts_with,
};
use crate::text::{same_text, pieces, lemma_pieces_concat, lemma_pieces_without_separator, lemma_pieces_avoid};
use crate::frontmatter::{
    body_of, after_breaks, lemma_after_breaks_concat, header_of, lines, marker, next_marker, strip_cr, with_newlines,
    lemma_with_newlines_pieces, lemma_with_newlines_concat, lemma_next_marker_is,
};

verus! {

/// What can go wrong with an input file of a build.
pub enum WingmanError {
    /// The input path does not exist.
    InputNotExist(String),
    /// The input path is not a file.
    InputNotFile(String),
    /// The input path lies outside the source directory.
    OutsideSourceTree(String),
}

impl WingmanError {
    /// The message that describes the error.
    pub fn message(&self) -> (m: &'static str)
        ensures
            m@ == error_message(*self),
    {
        match self {
            WingmanError::InputNotExist(_) => {
                proof {
                    reveal_strlit("input does not exist");
                }
                "input does not exist"
            },
            WingmanError::InputNotFile(_) => {
                proof {
                    reveal_strlit("input is not a file");
                }
                "input is not a file"
            },
            WingmanError::OutsideSourceTree(_) => {
                proof {
                    reveal_strlit("input resolves outside the source directory");
                }
                "input resolves outside the source directory"
            },
        }
    }
}

/// The message that describes an error.
pub open spec fn error_message(e: WingmanError) -> Seq<char> {
    match e {
        WingmanError::InputNotExist(_) => "input does not exist"@,
        WingmanError::InputNotFile(_) => "input is not a file"@,
        WingmanError::OutsideSourceTree(_) => "input resolves outside the source directory"@,
    }
}

/// Maps a file under `source_root` onto the matching location under `target_root`.
///
/// This is component-based: a path that does not start with the components of
/// `source_root` has no output location, and neither has one whose remainder
/// holds `..`; both are rejected with `OutsideSourceTree`. Otherwise the
/// remainder is pushed onto `target_root`.
pub fn destination_for(source_root: &str, target_root: &str, path: &str) -> (res: Result<
    String,
    WingmanError,
>)
    ensures
        res is Ok <==> lies_under(source_root@, path@),
        res matches Ok(d) ==> d@ == join_text(
            target_root@,
            render(relative_components(source_root@, path@)),
        ),
        res matches Err(e) ==> (e matches WingmanError::OutsideSourceTree(p) && p@ == path@),
{
    let root = parse_components(source_root);
    let parts = parse_components(path);
    if !starts_with_components(&parts, &root) {
        return Err(WingmanError::OutsideSourceTree(path.to_owned()));
    }
    if has_parent_dir_from(&parts, root.len()) {
        return Err(WingmanError::OutsideSourceTree(path.to_owned()));
    }
    let relative = render_from(&parts, root.len());
    Ok(join(target_root, relative.as_str()))
}

/// The settings of a site.
pub struct Settings {}

impl Settings {
    /// The default settings.
    pub fn new() -> (s: Settings) {
        Settings {}
    }
}

/// What a build does with one input file.
pub enum RenderPlan {
    /// A Markdown page, rendered to HTML at `html_destination`; none where the
    /// destination has no file name to give the `html` extension.
    Page { html_destination: Option<String> },
    /// A style sheet, minified to `destination`.
    Stylesheet { destination: String },
    /// Any other file, which the build leaves alone.
    Other,
}

/// Where `path`, under `source_root`, is written under `target_root`.
pub open spec fn destination(source_root: Seq<char>, target_root: Seq<char>, path: Seq<char>) -> Seq<
    char,
> {
    join_text(target_root, render(relative_components(source_root, path)))
}

/// Decides what a build does with the input file `path`, given whether it
/// exists and whether it is a file: a missing input and an input that is no
/// file are errors, and so is one outside `source_root`; a `.md` file is a page
/// written to its destination with the extension `html`, a `.css` file is a
/// style sheet written to its destination, and any other file is left alone.
pub fn plan_render(source_root: &str, target_root: &str, path: &str, exists: bool, is_file: bool) -> (res:
    Result<RenderPlan, WingmanError>)
    ensures
        !exists ==> (res matches Err(WingmanError::InputNotExist(p)) && p@ == path@),
        exists && !is_file ==> (res matches Err(WingmanError::InputNotFile(p)) && p@ == path@),
        exists && is_file && !lies_under(source_root@, path@) ==> (res matches Err(
            WingmanError::OutsideSourceTree(p),
        ) && p@ == path@),
        exists && is_file && lies_under(source_root@, path@) ==> {
            let dest = destination(source_root@, target_root@, path@);
            if extension(path@) == Some("md"@) {
                res matches Ok(RenderPlan::Page { html_destination: d }) && match d {
                    Some(t) => (with_extension(dest, "html"@) matches Some(cs) && t@ == render(cs)),
                    None => with_extension(dest, "html"@) is None,
                }
            } else if extension(path@) == Some("css"@) {
                res matches Ok(RenderPlan::Stylesheet { destination: t }) && t@ == dest
            } else {
                res matches Ok(RenderPlan::Other)
            }
        },
{
    if !exists {
        return Err(WingmanError::InputNotExist(path.to_owned()));
    }
    if !is_file {
        return Err(WingmanError::InputNotFile(path.to_owned()));
    }
    let dest = match destination_for(source_root, target_root, path) {
        Ok(d) => d,
        Err(e) => {
            return Err(e);
        },
    };
    match path_extension(path) {
        Some(ext) => {
            if same_text(ext.as_str(), "md") {
                proof {
                    reveal_strlit("md");
                }
                Ok(RenderPlan::Page { html_destination: set_extension(dest.as_str(), "html") })
            } else if same_text(ext.as_str(), "css") {
                proof {
                    reveal_strlit("md");
                    reveal_strlit("css");
                }
                Ok(RenderPlan::Stylesheet { destination: dest })
            } else {
                proof {
                    reveal_strlit("md");
                    reveal_strlit("css");
                }
                Ok(RenderPlan::Other)
            }
        },
        None => Ok(RenderPlan::Other),
    }
}

/// The kinds of file-system events a watching build hears of.
pub enum WatchEvent {
    Any,
    Access,
    Create,
    Modify,
    Remove,
    Other,
}

/// Whether a watching build renders the paths of an event of this kind: it
/// does for accesses, creations and modifications, and ignores the rest.
pub fn renders_on(kind: &WatchEvent) -> (r: bool)
    ensures
        r == (*kind is Access || *kind is Create || *kind is Modify),
{
    match kind {
        WatchEvent::Access | WatchEvent::Create | WatchEvent::Modify => true,
        _ => false,
    }
}

/// Whether a watching build passes over a failed render without a word: it
/// does where the failure is one of the library's own errors (a path that does
/// not exist, is not a file or lies outside the source directory), and reports
/// every other failure, given here as `None`.
pub fn skips_silently(e: Option<&WingmanError>) -> (skip: bool)
    ensures
        skip <==> (e matches Some(err) && (*err is InputNotExist || *err is InputNotFile
            || *err is OutsideSourceTree)),
{
    match e {
        Some(WingmanError::InputNotExist(_)) => true,
        Some(WingmanError::InputNotFile(_)) => true,
        Some(WingmanError::OutsideSourceTree(_)) => true,
        None => false,
    }
}

/// What a watching build does after it rendered one path of an event.
pub enum AfterRender {
    /// Go on to the next path at once: nothing is printed and the templates
    /// are not reloaded.
    Skip,
    /// Reload the templates.
    Reload,
    /// Print the failure, then reload the templates.
    ReportThenReload,
}

/// What a watching build does after rendering one path: a failure that is one
/// of the library's own errors (`own`) is passed over silently; any other
/// failure is printed; in every case but the silent one the templates are
/// reloaded before the next path.
pub fn after_render(failed: bool, own: Option<&WingmanError>) -> (a: AfterRender)
    ensures
        !failed ==> a is Reload,
        failed && own is Some ==> a is Skip,
        failed && own is None ==> a is ReportThenReload,
{
    if !failed {
        AfterRender::Reload
    } else if skips_silently(own) {
        AfterRender::Skip
    } else {
        AfterRender::ReportThenReload
    }
}

/// Whether a project may be set up in a directory: only an empty one, unless forced.
pub fn init_allowed(dir_is_empty: bool, force: bool) -> (r: bool)
    ensures
        r == (dir_is_empty || force),
{
    dir_is_empty || force
}

/// Whether a build can start: both the source and the target directory must exist.
pub fn build_allowed(source_exists: bool, target_exists: bool) -> (r: bool)
    ensures
        r == (source_exists && target_exists),
{
    source_exists && target_exists
}

/// The text of the index page that a new project starts with: its metadata
/// `meta_yaml` between two marker lines, with a blank line on either side.
pub open spec fn index_text(meta_yaml: Seq<char>) -> Seq<char> {
    seq!['-', '-', '-', '\n', '\n'] + meta_yaml + seq!['\n', '\n', '-', '-', '-']
}

/// The text of the index page that a new project starts with.
pub fn index_page(meta_yaml: &str) -> (page: String)
    ensures
        page@ == index_text(meta_yaml@),
{
    proof {
        reveal_strlit("---\n\n");
        reveal_strlit("\n\n---");
    }
    let mut page = String::new();
    page.append("---\n\n");
    page.append(meta_yaml);
    page.append("\n\n---");
    assert("---\n\n"@ =~= seq!['-', '-', '-', '\n', '\n']);
    assert("\n\n---"@ =~= seq!['\n', '\n', '-', '-', '-']);
    page
}

/// What `init` writes as the index page reads back as front matter: the
/// header handed to the YAML parser is the metadata with a blank line before
/// and after it, and the body is empty: nothing follows the closing marker. This holds when the metadata
/// text has no carriage return and no line that is a marker line.
pub proof fn lemma_index_page_frames_meta(meta_yaml: Seq<char>)
    requires
        !meta_yaml.contains('\r'),
        !pieces(meta_yaml, '\n').contains(marker()),
    ensures
        header_of(index_text(meta_yaml)) == seq!['\n'] + meta_yaml + seq!['\n', '\n'],
        body_of(index_text(meta_yaml)) == Seq::<char>::empty(),
{
    let m = marker();
    let e = Seq::<char>::empty();
    let nl = seq!['\n'];
    let t = index_text(meta_yaml);
    assert(t =~= m + nl + (e + nl + (meta_yaml + nl + (e + nl + m))));
    assert(!m.contains('\n')) by {
        if m.contains('\n') {
            let k = choose|k: int| 0 <= k < m.len() && m[k] == '\n';
            assert(m[k] == '-');
        }
    }
    lemma_pieces_without_separator('\n', m);
    lemma_pieces_concat('\n', e, m);
    lemma_pieces_concat('\n', meta_yaml, e + nl + m);
    lemma_pieces_concat('\n', e, meta_yaml + nl + (e + nl + m));
    lemma_pieces_concat('\n', m, e + nl + (meta_yaml + nl + (e + nl + m)));
    let py = pieces(meta_yaml, '\n');
    let ee: Seq<Seq<char>> = seq![e];
    let mm: Seq<Seq<char>> = seq![m];
    assert(pieces(e, '\n') =~= ee);
    let p = pieces(t, '\n');
    assert(p =~= mm + (ee + (py + (ee + mm))));
    lemma_pieces_avoid('\n', meta_yaml, '\r');
    let front: Seq<Seq<char>> = seq![m, e];
    let back: Seq<Seq<char>> = seq![e];
    assert(p.drop_last() =~= front + py + back);
    assert(p.drop_last().map_values(|l: Seq<char>| strip_cr(l)) =~= p.drop_last()) by {
        assert forall|i: int| 0 <= i < p.drop_last().len() implies strip_cr(
            #[trigger] p.drop_last()[i],
        ) == p.drop_last()[i] by {
            let l = p.drop_last()[i];
            if l.len() > 0 && l.last() == '\r' {
                if i >= 2 && i < 2 + py.len() {
                    assert(l == py[i - 2]);
                    assert(l[l.len() - 1] == '\r');
                } else if i == 0 {
                    assert(l == m);
                    assert(l[l.len() - 1] == '-');
                }
            }
        }
    }
    let ls = lines(t);
    assert(ls =~= front + py + back + mm);
    let n = ls.len() as int;
    assert(ls[0] == m);
    lemma_next_marker_is(ls, 0, 0);
    assert forall|j: int| 1 <= j < n - 1 implies ls[j] != m by {
        if j == 1 || j == n - 2 {
            assert(ls[j] == e);
            assert(e.len() != m.len());
        } else {
            assert(ls[j] == py[j - 2]);
            if py[j - 2] == m {
                assert(py.contains(m));
            }
        }
    }
    lemma_next_marker_is(ls, 1, n - 1);
    lemma_next_marker_is(ls, n, n);
    assert(ls.subrange(1, n - 1) =~= back + py + back);
    lemma_with_newlines_concat(back + py, back);
    lemma_with_newlines_concat(back, py);
    lemma_with_newlines_pieces(meta_yaml);
    assert(back.drop_last() =~= Seq::<Seq<char>>::empty());
    assert(with_newlines(back.drop_last()) =~= Seq::<char>::empty());
    assert(with_newlines(back) =~= nl);
    assert(header_of(t) =~= seq!['\n'] + meta_yaml + seq!['\n', '\n']);
    let before = m + nl + (e + nl + (meta_yaml + nl + e));
    assert(t =~= before + nl + m);
    lemma_pieces_concat('\n', meta_yaml, e);
    lemma_pieces_concat('\n', e, meta_yaml + nl + e);
    lemma_pieces_concat('\n', m, e + nl + (meta_yaml + nl + e));
    assert(pieces(before, '\n') =~= mm + (ee + (py + ee)));
    lemma_after_breaks_concat(before, m, 1);
    assert(pieces(m, '\n').len() == 1);
    assert(after_breaks(m, 1) =~= Seq::<char>::empty());
}

/// How a template file is registered with the template engine.
pub enum TemplateKind {
    /// A partial, which lives under the `partials` directory of the templates.
    Partial,
    /// A page template.
    Page,
}

/// A template file to register: its name and its kind.
pub struct TemplateEntry {
    pub name: String,
    pub kind: TemplateKind,
}

/// Whether a path names a template file: its extension is `hbs` or `handlebars`.
pub open spec fn is_template_file(path: Seq<char>) -> bool {
    extension(path) == Some("hbs"@) || extension(path) == Some("handlebars"@)
}

/// Decides how the file `path`, found under `templates_dir`, is registered:
/// only `.hbs` and `.handlebars` files are templates; a template is named by
/// the stem of its file name (empty if it has none), and it is a partial
/// exactly when it lies under `templates_dir/partials`.
pub fn template_entry(templates_dir: &str, path: &str) -> (r: Option<TemplateEntry>)
    ensures
        r is Some <==> is_template_file(path@),
        r matches Some(e) ==> {
            &&& e.name@ == (match file_stem(path@) {
                Some(stem) => stem,
                None => Seq::<char>::empty(),
            })
            &&& (e.kind is Partial <==> is_prefix_of(
                components(join_text(templates_dir@, "partials"@)),
                components(path@),
            ))
        },
{
    let is_template = match path_extension(path) {
        Some(ext) => same_text(ext.as_str(), "hbs") || same_text(ext.as_str(), "handlebars"),
        None => false,
    };
    proof {
        reveal_strlit("hbs");
        reveal_strlit("handlebars");
    }
    if !is_template {
        return None;
    }
    let name = match path_file_stem(path) {
        Some(stem) => stem,
        None => String::new(),
    };
    let partials = join(templates_dir, "partials");
    let kind = if path_starts_with(path, partials.as_str()) {
        TemplateKind::Partial
    } else {
        TemplateKind::Page
    };
    Some(TemplateEntry { name, kind })
}

} // verus!
