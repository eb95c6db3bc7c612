//! One post from file name and text to page: the markdown crates parse,
//! re-serialise and render; the rest is this library's.
use vstd::prelude::*;
use crate::filename::{file_name_of, parse_file_name};
use crate::frontmatter::{frontmatter_of, parse_frontmatter_text, string_views, Frontmatter};
use crate::render::{entry_of, post_page_text, render_post, RenderedPost};

verus! {

#[verifier::external_type_specification]
#[verifier::external_body]
pub struct ExNode(markdown::mdast::Node);

#[verifier::external_type_specification]
#[verifier::external_body]
pub struct ExMessage(markdown::message::Message);

/// How the markdown of a post is read and rendered. The renderer trusts the
/// posts' authors when the dangerous switches are on.
pub struct MarkdownConfig {
    /// Recognise a metadata block at the top of a document.
    pub frontmatter: bool,
    /// Pass raw HTML blocks and inline HTML through.
    pub raw_html: bool,
    /// Emit raw HTML unescaped.
    pub allow_dangerous_html: bool,
    /// Keep every image source.
    pub allow_any_img_src: bool,
    /// Keep links of every protocol.
    pub allow_dangerous_protocol: bool,
    /// Filter the tags that GitHub's tag filter removes.
    pub gfm_tagfilter: bool,
}

impl MarkdownConfig {
    /// The settings for trusted posts: metadata blocks on, every guard off.
    pub fn trusted() -> (r: MarkdownConfig)
        ensures
            r.frontmatter && r.raw_html && r.allow_dangerous_html && r.allow_any_img_src
                && r.allow_dangerous_protocol && !r.gfm_tagfilter,
    {
        MarkdownConfig {
            frontmatter: true,
            raw_html: true,
            allow_dangerous_html: true,
            allow_any_img_src: true,
            allow_dangerous_protocol: true,
            gfm_tagfilter: false,
        }
    }
}

/// The tree that `markdown::to_mdast` builds from a text under GFM parse
/// options with the given switches.
pub uninterp spec fn tree_of(text: Seq<char>, frontmatter: bool, raw_html: bool) -> markdown::mdast::Node;

/// The text of the metadata block that a tree holds as the first child of its
/// root, if it holds one there.
pub uninterp spec fn front_block_of(tree: markdown::mdast::Node) -> Option<Seq<char>>;

/// The tree without that metadata block.
pub uninterp spec fn tree_body_of(tree: markdown::mdast::Node) -> markdown::mdast::Node;

/// What `mdast_util_to_markdown::to_markdown_with_options` writes for a tree
/// with its default options; `None` where it fails.
pub uninterp spec fn markdown_of(tree: markdown::mdast::Node) -> Option<Seq<char>>;

/// What `markdown::to_html_with_options` renders from a text under GFM options
/// with the given switches.
pub uninterp spec fn html_of(
    text: Seq<char>,
    frontmatter: bool,
    raw_html: bool,
    allow_dangerous_html: bool,
    allow_any_img_src: bool,
    allow_dangerous_protocol: bool,
    gfm_tagfilter: bool,
) -> Seq<char>;

/// The HTML that a config renders a markdown text to.
pub open spec fn rendered_html(text: Seq<char>, cfg: MarkdownConfig) -> Seq<char> {
    html_of(
        text,
        cfg.frontmatter,
        cfg.raw_html,
        cfg.allow_dangerous_html,
        cfg.allow_any_img_src,
        cfg.allow_dangerous_protocol,
        cfg.gfm_tagfilter,
    )
}

/// Relies on `markdown::to_mdast` under `ParseOptions::gfm` with the switches of
/// `cfg`: it builds a tree, and fails only on MDX syntax, which these options
/// leave off.
#[verifier::external_body]
fn parse_tree(text: &str, cfg: &MarkdownConfig) -> (r: Result<markdown::mdast::Node, markdown::message::Message>)
    ensures
        r is Ok,
        r->Ok_0 == tree_of(text@, cfg.frontmatter, cfg.raw_html),
{
    let mut opts = markdown::ParseOptions::gfm();
    opts.constructs.frontmatter = cfg.frontmatter;
    opts.constructs.html_flow = cfg.raw_html;
    opts.constructs.html_text = cfg.raw_html;
    markdown::to_mdast(text, &opts)
}

/// Relies on the shape of `markdown::mdast::Node`: when the tree is a root whose
/// first child is a YAML metadata block, removes that child and hands back its
/// text; otherwise leaves the tree as it is.
#[verifier::external_body]
fn take_front_block(node: &mut markdown::mdast::Node) -> (r: Option<String>)
    ensures
        r is Some <==> front_block_of(*old(node)) is Some,
        r is Some ==> r->Some_0@ == front_block_of(*old(node))->Some_0,
        r is Some ==> *final(node) == tree_body_of(*old(node)),
        r is None ==> *final(node) == *old(node),
{
    let markdown::mdast::Node::Root(root) = node else { return None };
    if !matches!(root.children.first(), Some(markdown::mdast::Node::Yaml(_))) {
        return None;
    }
    match root.children.remove(0) {
        markdown::mdast::Node::Yaml(yaml) => Some(yaml.value),
        _ => None,
    }
}

/// Relies on `mdast_util_to_markdown::to_markdown_with_options` with its default
/// options: writes a syntax tree back as markdown.
#[verifier::external_body]
fn tree_to_markdown(node: &markdown::mdast::Node) -> (r: Result<String, markdown::message::Message>)
    ensures
        r is Ok <==> markdown_of(*node) is Some,
        r is Ok ==> r->Ok_0@ == markdown_of(*node)->Some_0,
{
    mdast_util_to_markdown::to_markdown_with_options(node, &mdast_util_to_markdown::Options::default())
}

/// Relies on `markdown::to_html_with_options` under `Options::gfm` with the
/// switches of `cfg`: it renders markdown as HTML, and fails only on MDX syntax,
/// which these options leave off.
#[verifier::external_body]
fn markdown_to_html(text: &str, cfg: &MarkdownConfig) -> (r: Result<String, markdown::message::Message>)
    ensures
        r is Ok,
        r->Ok_0@ == html_of(
            text@,
            cfg.frontmatter,
            cfg.raw_html,
            cfg.allow_dangerous_html,
            cfg.allow_any_img_src,
            cfg.allow_dangerous_protocol,
            cfg.gfm_tagfilter,
        ),
{
    let mut opts = markdown::Options::gfm();
    opts.parse.constructs.frontmatter = cfg.frontmatter;
    opts.parse.constructs.html_flow = cfg.raw_html;
    opts.parse.constructs.html_text = cfg.raw_html;
    opts.compile.allow_dangerous_html = cfg.allow_dangerous_html;
    opts.compile.allow_any_img_src = cfg.allow_any_img_src;
    opts.compile.allow_dangerous_protocol = cfg.allow_dangerous_protocol;
    opts.compile.gfm_tagfilter = cfg.gfm_tagfilter;
    markdown::to_html_with_options(text, &opts)
}

/// Relies on the `reason` field of `markdown::message::Message`.
#[verifier::external_body]
fn message_reason(m: &markdown::message::Message) -> String {
    m.reason.clone()
}

/// The metadata of a document whose metadata block has the given text; no
/// block means no metadata.
pub fn frontmatter_from_block(block: Option<String>) -> (r: Option<Frontmatter>)
    ensures
        match block {
            Some(t) => r is Some && r->Some_0@ == frontmatter_of(t@),
            None => r is None,
        },
{
    match block {
        Some(t) => Some(parse_frontmatter_text(t.as_str())),
        None => None,
    }
}

/// Takes the metadata block off the top of a parsed document and reads it;
/// `None`, with the tree untouched, where the document has none.
pub fn parse_frontmatter(node: &mut markdown::mdast::Node) -> (r: Option<Frontmatter>)
    ensures
        match front_block_of(*old(node)) {
            Some(t) => r is Some && r->Some_0@ == frontmatter_of(t) && *final(node) == tree_body_of(*old(node)),
            None => r is None && *final(node) == *old(node),
        },
{
    let block = take_front_block(node);
    frontmatter_from_block(block)
}

/// Why a post could not be built; each carries the markdown crate's reason.
pub enum PostError {
    /// The text did not parse as markdown.
    Parse(String),
    /// The document has no metadata block at its top.
    MissingFrontmatter,
    /// The tree could not be written back as markdown.
    Serialize(String),
    /// The markdown could not be rendered as HTML.
    Render(String),
}

/// A post's metadata and its body rendered as HTML.
pub struct PostBody {
    pub frontmatter: Frontmatter,
    pub html: String,
}

/// What a post's text gives under a config: the text of its metadata block and
/// its body rendered as HTML; `None` where it has no metadata block or its body
/// cannot be written back as markdown.
pub open spec fn post_body_of(content: Seq<char>, cfg: MarkdownConfig) -> Option<(Seq<char>, Seq<char>)> {
    let tree = tree_of(content, cfg.frontmatter, cfg.raw_html);
    match front_block_of(tree) {
        None => None,
        Some(block) => match markdown_of(tree_body_of(tree)) {
            None => None,
            Some(md) => Some((block, rendered_html(md, cfg))),
        },
    }
}

/// Parses a post's text, takes its metadata block off, writes the rest back as
/// markdown and renders that as HTML.
pub fn render_body(content: &str, cfg: &MarkdownConfig) -> (r: Result<PostBody, PostError>)
    ensures
        match post_body_of(content@, *cfg) {
            Some((block, html)) => r is Ok && r->Ok_0.frontmatter@ == frontmatter_of(block)
                && r->Ok_0.html@ == html,
            None => r is Err,
        },
        (r matches Err(PostError::MissingFrontmatter)) <==> front_block_of(
            tree_of(content@, cfg.frontmatter, cfg.raw_html),
        ) is None,
{
    let mut tree = match parse_tree(content, cfg) {
        Ok(t) => t,
        Err(m) => return Err(PostError::Parse(message_reason(&m))),
    };
    let fm = match parse_frontmatter(&mut tree) {
        Some(f) => f,
        None => return Err(PostError::MissingFrontmatter),
    };
    let md = match tree_to_markdown(&tree) {
        Ok(s) => s,
        Err(m) => return Err(PostError::Serialize(message_reason(&m))),
    };
    let html = match markdown_to_html(md.as_str(), cfg) {
        Ok(s) => s,
        Err(m) => return Err(PostError::Render(message_reason(&m))),
    };
    Ok(PostBody { frontmatter: fm, html })
}

/// Builds one post from its file name and text: `Ok(None)` for a file whose
/// name is no post's, else its page and index entry over the post layout and
/// its categories.
pub fn build_post(file_name: &str, content: &str, cfg: &MarkdownConfig, layout: &str) -> (r: Result<
    Option<(RenderedPost, Vec<String>)>,
    PostError,
>)
    ensures
        match file_name_of(file_name@) {
            None => r matches Ok(None),
            Some(info) => match post_body_of(content@, *cfg) {
                Some((block, html)) => {
                    &&& r matches Ok(Some(_))
                    &&& r->Ok_0->Some_0.0.page@ == post_page_text(layout@, info, frontmatter_of(block), html)
                    &&& r->Ok_0->Some_0.0.entry@ == entry_of(info, frontmatter_of(block))
                    &&& string_views(r->Ok_0->Some_0.1@) == frontmatter_of(block).categories
                },
                None => r is Err,
            },
        },
{
    let info = match parse_file_name(file_name) {
        Some(i) => i,
        None => return Ok(None),
    };
    let body = match render_body(content, cfg) {
        Ok(b) => b,
        Err(e) => return Err(e),
    };
    let post = render_post(&info, &body.frontmatter, body.html.as_str(), layout);
    let cats = body.frontmatter.categories;
    Ok(Some((post, cats)))
}

} // verus!
