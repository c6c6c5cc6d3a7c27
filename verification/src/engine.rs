//! Registering the project's templates with the `handlebars` engine.
use vstd::prelude::*;
use handlebars::{Handlebars, RenderError, TemplateError};
use crate::{TemplateEntry, TemplateKind};
use crate::frontmatter::{Frontmatter, Meta};
use crate::render::{markdown_html, page_html};

verus! {

#[verifier::external_type_specification]
#[verifier::external_body]
pub struct ExHandlebars<'reg>(Handlebars<'reg>);

#[verifier::external_type_specification]
#[verifier::external_body]
pub struct ExTemplateError(TemplateError);

#[verifier::external_type_specification]
#[verifier::external_body]
pub struct ExRenderError(RenderError);

/// The names under which a Handlebars registry holds templates.
pub uninterp spec fn registered_names(reg: Handlebars<'_>) -> Set<Seq<char>>;

/// Whether a Handlebars registry keeps partials from being indented.
pub uninterp spec fn prevents_indent(reg: Handlebars<'_>) -> bool;

/// Whether a Handlebars registry renders by its templates alone: its dev mode
/// is off, so no template is read again from a file, and it has only the
/// built-in helpers and decorators.
pub uninterp spec fn plain_registry(reg: Handlebars<'_>) -> bool;

/// Whether a Handlebars registry holds, under `name`, the template compiled
/// from `source` with the indenting of partials prevented or not.
pub uninterp spec fn holds_template(reg: Handlebars<'_>, name: Seq<char>, source: Seq<char>, prevent_indent: bool) -> bool;

/// Whether Handlebars compiles `source` as the template `name`, with the
/// indenting of partials prevented or not.
pub uninterp spec fn template_compiles(name: Seq<char>, source: Seq<char>, prevent_indent: bool) -> bool;

/// What a plain Handlebars registry renders from its template `name` with a
/// page as data: an object whose `meta` holds the `title`, `desc` and
/// `keywords` (null where absent) and whose `body` holds the body; none where
/// the render fails.
pub uninterp spec fn rendered_page(
    reg: Handlebars<'_>,
    name: Seq<char>,
    title: Seq<char>,
    desc: Option<Seq<char>>,
    keywords: Option<Seq<char>>,
    body: Seq<char>,
) -> Option<Seq<char>>;

/// `Handlebars::new`: a registry with no templates, the built-in helpers,
/// dev mode off and the indenting of partials not prevented.
#[verifier::external_body]
fn hbs_new<'reg>() -> (reg: Handlebars<'reg>)
    ensures
        registered_names(reg) == Set::<Seq<char>>::empty(),
        !prevents_indent(reg),
        plain_registry(reg),
{
    Handlebars::new()
}

/// `Handlebars::register_template_string`: compiles `source` and, where it
/// compiles, holds it under `name`, in place of any template of that name. A
/// text that does not compile leaves the registry's templates as they were.
/// Nothing else of the registry changes.
#[verifier::external_body]
fn hbs_register_template_string(reg: &mut Handlebars<'_>, name: &str, source: &str) -> (res: Result<(), TemplateError>)
    ensures
        res is Ok <==> template_compiles(name@, source@, prevents_indent(*old(reg))),
        prevents_indent(*final(reg)) == prevents_indent(*old(reg)),
        plain_registry(*final(reg)) == plain_registry(*old(reg)),
        res is Ok ==> registered_names(*final(reg)) == registered_names(*old(reg)).insert(name@),
        res is Err ==> registered_names(*final(reg)) == registered_names(*old(reg)),
        res is Ok ==> holds_template(*final(reg), name@, source@, prevents_indent(*old(reg))),
        forall|n: Seq<char>, src: Seq<char>, pi: bool|
            (res is Err || n != name@) ==> #[trigger] holds_template(*final(reg), n, src, pi)
                == holds_template(*old(reg), n, src, pi),
{
    reg.register_template_string(name, source)
}

/// `Handlebars::register_partial`, which registers the partial as a template
/// string under `name`: the same as `register_template_string`.
#[verifier::external_body]
fn hbs_register_partial(reg: &mut Handlebars<'_>, name: &str, source: &str) -> (res: Result<(), TemplateError>)
    ensures
        res is Ok <==> template_compiles(name@, source@, prevents_indent(*old(reg))),
        prevents_indent(*final(reg)) == prevents_indent(*old(reg)),
        plain_registry(*final(reg)) == plain_registry(*old(reg)),
        res is Ok ==> registered_names(*final(reg)) == registered_names(*old(reg)).insert(name@),
        res is Err ==> registered_names(*final(reg)) == registered_names(*old(reg)),
        res is Ok ==> holds_template(*final(reg), name@, source@, prevents_indent(*old(reg))),
        forall|n: Seq<char>, src: Seq<char>, pi: bool|
            (res is Err || n != name@) ==> #[trigger] holds_template(*final(reg), n, src, pi)
                == holds_template(*old(reg), n, src, pi),
{
    reg.register_partial(name, source)
}

/// The text of an optional string.
pub open spec fn opt_text(o: Option<String>) -> Option<Seq<char>> {
    match o {
        Some(s) => Some(s@),
        None => None,
    }
}

/// `Handlebars::render` of the template `name`, with the page as its data: the
/// metadata and body are put into a JSON object as the `Meta` and page fields
/// are named. A template the registry does not hold fails to render; the
/// output of a plain registry is named, not described.
#[verifier::external_body]
fn hbs_render(reg: &Handlebars<'_>, name: &str, meta: &Meta, body: &str) -> (res: Result<String, RenderError>)
    ensures
        !registered_names(*reg).contains(name@) ==> res is Err,
        plain_registry(*reg) ==> (res is Ok <==> rendered_page(*reg, name@, meta.title@, opt_text(meta.desc), opt_text(meta.keywords), body@) is Some),
        plain_registry(*reg) ==> (res matches Ok(t) ==> rendered_page(*reg, name@, meta.title@, opt_text(meta.desc), opt_text(meta.keywords), body@) == Some(t@)),
{
    let mut m = serde_json::Map::new();
    m.insert("title".to_string(), meta.title.as_str().into());
    m.insert("desc".to_string(), meta.desc.as_deref().into());
    m.insert("keywords".to_string(), meta.keywords.as_deref().into());
    let mut page = serde_json::Map::new();
    page.insert("meta".to_string(), m.into());
    page.insert("body".to_string(), body.into());
    reg.render(name, &page)
}

/// The message of a Handlebars render error.
#[verifier::external_body]
fn render_error_message(e: &RenderError) -> (m: String) {
    e.to_string()
}

/// The message of a Handlebars template error.
#[verifier::external_body]
fn template_error_message(e: &TemplateError) -> (m: String) {
    e.to_string()
}

/// A template that could not be registered: its name, whether it is a partial
/// or a page, and the engine's message.
pub struct RegisterError {
    pub name: String,
    pub kind: TemplateKind,
    pub message: String,
}

/// Registers the template file `entry`, whose text is `source`, with the
/// engine: a partial as a partial, a page as a template string, under the
/// entry's name. It succeeds exactly when the text compiles, and then the
/// engine holds a template of that name; otherwise its templates stay as they
/// were and the error names the entry.
pub fn register_entry(engine: &mut Handlebars<'_>, entry: &TemplateEntry, source: &str) -> (res: Result<(), RegisterError>)
    ensures
        res is Ok <==> template_compiles(entry.name@, source@, prevents_indent(*old(engine))),
        prevents_indent(*final(engine)) == prevents_indent(*old(engine)),
        res is Ok ==> registered_names(*final(engine)) == registered_names(*old(engine)).insert(entry.name@),
        res is Err ==> registered_names(*final(engine)) == registered_names(*old(engine)),
        plain_registry(*final(engine)) == plain_registry(*old(engine)),
        res is Ok ==> holds_template(*final(engine), entry.name@, source@, prevents_indent(*old(engine))),
        forall|n: Seq<char>, src: Seq<char>, pi: bool|
            (res is Err || n != entry.name@) ==> #[trigger] holds_template(*final(engine), n, src, pi)
                == holds_template(*old(engine), n, src, pi),
        res matches Err(e) ==> e.name@ == entry.name@ && e.kind == entry.kind,
{
    let done = match entry.kind {
        TemplateKind::Partial => hbs_register_partial(engine, entry.name.as_str(), source),
        TemplateKind::Page => hbs_register_template_string(engine, entry.name.as_str(), source),
    };
    match done {
        Ok(()) => Ok(()),
        Err(e) => {
            let kind = match entry.kind {
                TemplateKind::Partial => TemplateKind::Partial,
                TemplateKind::Page => TemplateKind::Page,
            };
            Err(RegisterError { name: entry.name.clone(), kind, message: template_error_message(&e) })
        },
    }
}

/// A fresh template engine: no templates, the built-in helpers only.
pub fn new_engine<'reg>() -> (engine: Handlebars<'reg>)
    ensures
        registered_names(engine) == Set::<Seq<char>>::empty(),
        !prevents_indent(engine),
        plain_registry(engine),
{
    hbs_new()
}

/// A page that the template engine could not render, with the engine's message.
pub struct PageRenderError {
    pub message: String,
}

/// The HTML page of `page`: its body rendered from Markdown (as `page_html`
/// does) and laid out by the engine's `page` template with the page's
/// metadata. It fails where the engine holds no `page` template; for a plain
/// engine the result is exactly what its template renders.
pub fn render_page(engine: &Handlebars<'_>, page: &Frontmatter) -> (res: Result<String, PageRenderError>)
    ensures
        !registered_names(*engine).contains("page"@) ==> res is Err,
        plain_registry(*engine) ==> (res is Ok <==> rendered_page(
            *engine,
            "page"@,
            page.meta.title@,
            opt_text(page.meta.desc),
            opt_text(page.meta.keywords),
            markdown_html(page.body@, true, true, true),
        ) is Some),
        plain_registry(*engine) ==> (res matches Ok(t) ==> rendered_page(
            *engine,
            "page"@,
            page.meta.title@,
            opt_text(page.meta.desc),
            opt_text(page.meta.keywords),
            markdown_html(page.body@, true, true, true),
        ) == Some(t@)),
{
    let html = page_html(page.body.as_str());
    proof {
        reveal_strlit("page");
    }
    match hbs_render(engine, "page", &page.meta, html.as_str()) {
        Ok(out) => Ok(out),
        Err(e) => Err(PageRenderError { message: render_error_message(&e) }),
    }
}

} // verus!
