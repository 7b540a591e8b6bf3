//! Markdown rendering into the page template, and its memoized forms.

use vstd::prelude::*;
use crate::cache::{ContentCache, ContentKey, key_view, refreshed, served};
use crate::context::{CtxValue, TemplateContext, ValueView, apply_directives, env_view};
use crate::error::AppError;
use crate::resolve::{relative_of, relative_path};
use crate::text::{to_owned_string, views};
use crate::toc::{entry_views, generate_toc, opt_view, toc_of};

verus! {

/// Version reported to templates as `server-version`.
pub const SERVER_VERSION: &'static str = "0.1.0";

/// HTML fragment for a Markdown text, or `None` where it does not parse.
pub uninterp spec fn markdown_html(md: Seq<char>) -> Option<Seq<char>>;

/// Page produced by a template on a context, or `None` where the template
/// does not compile or does not render on it.
pub uninterp spec fn page_html(template: Seq<char>, data: Map<Seq<char>, ValueView>) -> Option<Seq<char>>;

/// Relies on `markdown_ppp::parser::parse_markdown` and
/// `markdown_ppp::html_printer::render_html`, both with default settings
/// (GitHub alert blockquotes are parsed and rendered as callouts): the
/// fragment depends on the text alone.
#[verifier::external_body]
fn markdown_to_html(md: &str) -> (r: Result<String, AppError>)
    ensures
        match r {
            Ok(h) => markdown_html(md@) == Some(h@),
            Err(e) => markdown_html(md@) is None && e is MarkdownParseError,
        },
{
    let state = markdown_ppp::parser::MarkdownParserState::default();
    match markdown_ppp::parser::parse_markdown(state, md) {
        Ok(doc) => Ok(markdown_ppp::html_printer::render_html(&doc, Default::default())),
        Err(e) => Err(AppError::MarkdownParseError(e.to_string())),
    }
}

/// Relies on `handlebars::Registry::register_template_string` and
/// `handlebars::Registry::render` on a fresh registry: the page depends on
/// the template text and the context alone.
#[verifier::external_body]
fn render_page(template: &str, ctx: &TemplateContext) -> (r: Result<String, AppError>)
    ensures
        match r {
            Ok(p) => page_html(template@, ctx.view()) == Some(p@),
            Err(e) => page_html(template@, ctx.view()) is None && (e is TemplateError || e is RenderError),
        },
{
    let data: serde_json::Map<String, serde_json::Value> = ctx.entries().iter().map(|(k, v)| (k.clone(), match v {
        CtxValue::Bool(b) => serde_json::Value::Bool(*b),
        CtxValue::Int(n) => serde_json::Value::from(*n),
        CtxValue::Str(s) => serde_json::Value::String(s.clone()),
    })).collect();
    let mut registry = handlebars::Handlebars::new();
    registry.register_template_string("page", template).map_err(|e| AppError::TemplateError(e.to_string()))?;
    registry.render("page", &data).map_err(|e| AppError::RenderError(e.to_string()))
}

/// The built-in context: the server version.
pub open spec fn base_context() -> Map<Seq<char>, ValueView> {
    Map::<Seq<char>, ValueView>::empty().insert("server-version"@, ValueView::Str(SERVER_VERSION@))
}

pub open spec fn opt_views(v: Option<Vec<String>>) -> Seq<Seq<char>> {
    match v {
        Some(v) => views(v@),
        None => Seq::empty(),
    }
}

/// Context before the body: built-ins, then the configured directives, then
/// the caller's, a later one winning on a shared name.
pub open spec fn page_context(
    config_values: Seq<Seq<char>>,
    directives: Seq<Seq<char>>,
    env: Seq<(Seq<char>, Seq<char>)>,
) -> Map<Seq<char>, ValueView> {
    apply_directives(apply_directives(base_context(), config_values, env), directives, env)
}

/// What rendering a Markdown text into the page template yields.
pub open spec fn page_outcome(
    md: Seq<char>,
    template: Seq<char>,
    config_values: Seq<Seq<char>>,
    directives: Seq<Seq<char>>,
    env: Seq<(Seq<char>, Seq<char>)>,
) -> Option<Seq<char>> {
    match markdown_html(md) {
        None => None,
        Some(body) => page_html(
            template,
            page_context(config_values, directives, env).insert("body"@, ValueView::Str(body)),
        ),
    }
}

/// What [`md2html`] promises of its result.
pub open spec fn md2html_result(
    r: Result<String, AppError>,
    md: Seq<char>,
    template: Seq<char>,
    config_values: Seq<Seq<char>>,
    directives: Seq<Seq<char>>,
    env: Seq<(Seq<char>, Seq<char>)>,
) -> bool {
    match r {
        Ok(p) => page_outcome(md, template, config_values, directives, env) == Some(p@),
        Err(e) => page_outcome(md, template, config_values, directives, env) is None
            && (markdown_html(md) is None ==> e is MarkdownParseError)
            && (markdown_html(md) is Some ==> (e is TemplateError || e is RenderError)),
    }
}

/// Rendering is repeatable: two renders of the same text with the same
/// template, configuration, directives and environment both succeed with
/// the same page, or both fail.
pub proof fn lemma_render_repeatable(
    r1: Result<String, AppError>,
    r2: Result<String, AppError>,
    md: Seq<char>,
    template: Seq<char>,
    config_values: Seq<Seq<char>>,
    directives: Seq<Seq<char>>,
    env: Seq<(Seq<char>, Seq<char>)>,
)
    requires
        md2html_result(r1, md, template, config_values, directives, env),
        md2html_result(r2, md, template, config_values, directives, env),
    ensures
        r1 is Ok <==> r2 is Ok,
        r1 is Ok ==> r1.unwrap()@ == r2.unwrap()@,
{
}

/// A fresh context: `server-version`, then the configured directives.
pub fn get_context(config_values: &Option<Vec<String>>, env: &Vec<(String, String)>) -> (r: TemplateContext)
    ensures
        r.wf(),
        r.view() == apply_directives(base_context(), opt_views(*config_values), env_view(env@)),
{
    let mut ctx = TemplateContext::new();
    ctx.insert(to_owned_string("server-version"), CtxValue::Str(to_owned_string(SERVER_VERSION)));
    match config_values {
        Some(values) => ctx.apply_all(values, env),
        None => {
            assert(opt_views(*config_values) =~= Seq::<Seq<char>>::empty());
        },
    }
    ctx
}

/// The context a page is rendered with, given the HTML fragment of its body.
pub fn compose_context(
    config_values: &Option<Vec<String>>,
    directives: &Vec<String>,
    env: &Vec<(String, String)>,
    body: String,
) -> (r: TemplateContext)
    ensures
        r.wf(),
        r.view() == page_context(opt_views(*config_values), views(directives@), env_view(env@)).insert(
            "body"@,
            ValueView::Str(body@),
        ),
{
    let mut ctx = get_context(config_values, env);
    ctx.apply_all(directives, env);
    ctx.insert(to_owned_string("body"), CtxValue::Str(body));
    ctx
}

/// Renders Markdown into the page template: parse and render the fragment,
/// build the context (built-ins, configured directives, the caller's
/// directives, last one winning), put the fragment under `body`, and render
/// the template. A text that does not parse gives `MarkdownParseError`; a
/// template that fails gives `TemplateError` or `RenderError`.
pub fn md2html(
    md: &str,
    template: &str,
    config_values: &Option<Vec<String>>,
    directives: &Vec<String>,
    env: &Vec<(String, String)>,
) -> (r: Result<String, AppError>)
    ensures
        md2html_result(r, md@, template@, opt_views(*config_values), views(directives@), env_view(env@)),
{
    let body = markdown_to_html(md)?;
    let ctx = compose_context(config_values, directives, env, body);
    render_page(template, &ctx)
}

/// Copies a list of strings.
pub fn copy_strings(v: &Vec<String>) -> (r: Vec<String>)
    ensures
        views(r@) == views(v@),
{
    let mut out: Vec<String> = Vec::new();
    let mut i: usize = 0;
    while i < v.len()
        invariant
            i <= v@.len(),
            views(out@) == views(v@.subrange(0, i as int)),
        decreases v@.len() - i,
    {
        let ghost before = out@;
        out.push(v[i].clone());
        assert(views(out@) =~= views(before).push(v@[i as int]@));
        assert(views(v@.subrange(0, i + 1)) =~= views(v@.subrange(0, i as int)).push(v@[i as int]@));
        i = i + 1;
    }
    assert(v@.subrange(0, v@.len() as int) =~= v@);
    out
}

/// Cache key of a rendered Markdown file: its path, modification time and
/// size, the template's modification time, and the caller's directives.
pub open spec fn page_key(path: Seq<char>, mtime: u64, size: u64, template_mtime: u64, directives: Seq<Seq<char>>) -> (Seq<char>, u64, u64, u64, Seq<Seq<char>>) {
    (path, mtime, size, template_mtime, directives)
}

/// Cache key of a rendered Markdown file.
pub fn page_cache_key(path: &str, mtime: u64, size: u64, template_mtime: u64, directives: &Vec<String>) -> (r: ContentKey)
    ensures
        key_view(r) == page_key(path@, mtime, size, template_mtime, views(directives@)),
{
    (to_owned_string(path), mtime, size, template_mtime, copy_strings(directives))
}

/// What to answer after the cache lookup, done without holding the cache:
/// the stored page on a hit, else a fresh render; the second part is the
/// page to store, present exactly when a miss rendered successfully.
pub fn finish_render(
    hit: Option<String>,
    md: &str,
    template: &str,
    config_values: &Option<Vec<String>>,
    directives: &Vec<String>,
    env: &Vec<(String, String)>,
) -> (r: (Result<String, AppError>, Option<String>))
    ensures
        match hit {
            Some(p) => r.0 == Ok::<String, AppError>(p) && r.1 is None,
            None => md2html_result(r.0, md@, template@, opt_views(*config_values), views(directives@), env_view(env@))
                && match r.0 {
                    Ok(p) => r.1 matches Some(q) && q@ == p@,
                    Err(_) => r.1 is None,
                },
        },
{
    match hit {
        Some(page) => (Ok(page), None),
        None => {
            let out = md2html(md, template, config_values, directives, env);
            let store = match &out {
                Ok(page) => Some(page.clone()),
                Err(_) => None,
            };
            (out, store)
        },
    }
}

/// [`md2html`] through the render cache. A hit returns the stored page; a
/// miss renders, and stores the page when rendering succeeds.
pub fn render_markdown_cached(
    cache: &mut ContentCache,
    path: &str,
    mtime: u64,
    size: u64,
    template_mtime: u64,
    md: &str,
    template: &str,
    config_values: &Option<Vec<String>>,
    directives: &Vec<String>,
    env: &Vec<(String, String)>,
) -> (r: Result<String, AppError>)
    requires
        old(cache).wf(),
    ensures
        final(cache).wf(),
        final(cache).is_enabled() == old(cache).is_enabled(),
        ({
            let k = page_key(path@, mtime, size, template_mtime, views(directives@));
            let fresh = page_outcome(md@, template@, opt_views(*config_values), views(directives@), env_view(env@));
            &&& match served(old(cache).view(), k, fresh) {
                Some(p) => r matches Ok(q) && q@ == p,
                None => r is Err,
            }
            &&& refreshed(old(cache).view(), final(cache).view(), k, fresh)
        }),
{
    let key = page_cache_key(path, mtime, size, template_mtime, directives);
    let hit = cache.lookup(&key);
    let (out, store) = finish_render(hit, md, template, config_values, directives, env);
    match store {
        Some(page) => cache.store(key, page),
        None => {},
    }
    out
}

/// Cache key of a TOC: the directory, its modification time, and the title.
pub open spec fn toc_key(dir: Seq<char>, mtime: u64, title: Option<Seq<char>>) -> (Seq<char>, u64, u64, u64, Seq<Seq<char>>) {
    (dir, mtime, 0, 0, match title {
        Some(t) => seq![t],
        None => Seq::empty(),
    })
}

/// Cache key of a TOC.
pub fn toc_cache_key(dir: &str, mtime: u64, title: &Option<String>) -> (r: ContentKey)
    ensures
        key_view(r) == toc_key(dir@, mtime, opt_view(*title)),
{
    let mut quals: Vec<String> = Vec::new();
    match title {
        Some(t) => quals.push(t.clone()),
        None => {},
    }
    let key: ContentKey = (to_owned_string(dir), mtime, 0, 0, quals);
    assert(views(key.4@) =~= toc_key(dir@, mtime, opt_view(*title)).4);
    key
}

/// [`generate_toc`] for the canonical directory `dir` below `root` through the
/// TOC cache, keyed by the directory, its modification time and the title.
/// Changes deeper in the tree that leave the directory's own modification
/// time alone are not seen until the entry is evicted.
pub fn toc_cached(
    cache: &mut ContentCache,
    dir: &str,
    root: &str,
    dir_mtime: u64,
    entries: &Vec<Vec<String>>,
    exts: &Vec<String>,
    ignores: &Vec<String>,
    title: Option<String>,
) -> (r: String)
    requires
        old(cache).wf(),
    ensures
        final(cache).wf(),
        final(cache).is_enabled() == old(cache).is_enabled(),
        ({
            let k = toc_key(dir@, dir_mtime, opt_view(title));
            let fresh = toc_of(relative_of(dir@, root@), opt_view(title), entry_views(entries@), views(exts@), views(ignores@));
            &&& served(old(cache).view(), k, Some(fresh)) == Some(r@)
            &&& refreshed(old(cache).view(), final(cache).view(), k, Some(fresh))
        }),
{
    let key = toc_cache_key(dir, dir_mtime, &title);
    match cache.lookup(&key) {
        Some(text) => text,
        None => {
            let base = relative_path(dir, root);
            let text = generate_toc(base.as_str(), entries, exts, ignores, title);
            cache.store(key, text.clone());
            text
        },
    }
}

} // verus!
