use vstd::prelude::*;
use crate::discovery::{Document, DocumentView, Snippet, SnippetView};
use crate::runner::{
    GeneratedFile, Setup, TargetNameError, generated_view, has_ordinary, ordinary_indices, ordinary_snippets,
    prepare, prepare_spec, rendered_view, selected_documents, SnippetParts, block_source, is_no_run, nest_modules, nest_spec, runs_main, runs_main_spec,
    snippet_module_spec, document_source_spec, unhide, unhide_spec,
};
use crate::order::strings_view;
use crate::text::{chars_of, push_decimal, push_str_chars, string_of, decimal};

verus! {

// ---------------------------------------------------------------------------
// The syn crate
// ---------------------------------------------------------------------------

#[verifier::external_type_specification]
#[verifier::external_body]
pub struct ExSynItem(syn::Item);

#[verifier::external_type_specification]
#[verifier::external_body]
pub struct ExSynItemFn(syn::ItemFn);

#[verifier::external_type_specification]
#[verifier::external_body]
pub struct ExSynItemMod(syn::ItemMod);

#[verifier::external_type_specification]
#[verifier::external_body]
pub struct ExSynAttribute(syn::Attribute);

#[verifier::external_type_specification]
#[verifier::external_body]
pub struct ExSynStmt(syn::Stmt);

/// An attribute as rendering reads it: the one identifier its path is, where
/// it is one; whether it is an inner (`#![..]`) attribute; and its tokens.
pub struct SynAttribute {
    pub ident: Option<String>,
    pub inner: bool,
    pub text: String,
}

/// An item as rendering reads it.
pub enum SynItem {
    /// A function: its attributes, visibility, name, signature, and the
    /// statements of its body, each as tokens.
    Function {
        attributes: Vec<SynAttribute>,
        vis: String,
        name: String,
        signature: String,
        statements: Vec<String>,
    },
    /// A module with its content in braces: its attributes, visibility,
    /// whether it is `unsafe`, its name, and its items.
    Module { attributes: Vec<SynAttribute>, vis: String, is_unsafe: bool, name: String, items: Vec<SynItem> },
    /// Any other item, as tokens.
    Other { text: String },
}

/// A statement of a block: an item, or any other statement as tokens.
pub enum SynStmt {
    Item(SynItem),
    Other(String),
}

/// Reads an attribute of syn's syntax tree into plain values.
#[verifier::external_body]
fn attribute_model(attribute: &syn::Attribute) -> SynAttribute {
    SynAttribute {
        ident: attribute.path().get_ident().map(|ident| ident.to_string()),
        inner: matches!(attribute.style, syn::AttrStyle::Inner(_)),
        text: quote::ToTokens::to_token_stream(attribute).to_string(),
    }
}

/// Reads a function of syn's syntax tree into plain values.
#[verifier::external_body]
fn function_model(function: &syn::ItemFn) -> SynItem {
    SynItem::Function {
        attributes: function.attrs.iter().map(attribute_model).collect(),
        vis: quote::ToTokens::to_token_stream(&function.vis).to_string(),
        name: function.sig.ident.to_string(),
        signature: quote::ToTokens::to_token_stream(&function.sig).to_string(),
        statements: function.block.stmts.iter().map(|s| quote::ToTokens::to_token_stream(s).to_string()).collect(),
    }
}

/// Reads a module with content of syn's syntax tree into plain values.
#[verifier::external_body]
fn module_model(module: &syn::ItemMod, items: &Vec<syn::Item>) -> SynItem {
    SynItem::Module {
        attributes: module.attrs.iter().map(attribute_model).collect(),
        vis: quote::ToTokens::to_token_stream(&module.vis).to_string(),
        is_unsafe: module.unsafety.is_some(),
        name: module.ident.to_string(),
        items: items.iter().map(item_model).collect(),
    }
}

/// Reads an item of syn's syntax tree into plain values, one variant each.
#[verifier::external_body]
fn item_model(item: &syn::Item) -> SynItem {
    match item {
        syn::Item::Fn(function) => function_model(function),
        syn::Item::Mod(module) => match &module.content {
            Some((_, items)) => module_model(module, items),
            None => SynItem::Other { text: quote::ToTokens::to_token_stream(item).to_string() },
        },
        other => SynItem::Other { text: quote::ToTokens::to_token_stream(other).to_string() },
    }
}

/// Reads a statement of syn's syntax tree into plain values.
#[verifier::external_body]
fn stmt_model(stmt: &syn::Stmt) -> SynStmt {
    match stmt {
        syn::Stmt::Item(item) => SynStmt::Item(item_model(item)),
        other => SynStmt::Other(quote::ToTokens::to_token_stream(other).to_string()),
    }
}

/// The statements of the block that `syn::parse_str::<syn::Block>` reads from
/// `source`, read into plain values; `None` where `source` is no block.
pub uninterp spec fn syn_block_model(source: Seq<char>) -> Option<Seq<SynStmt>>;

/// `syn::parse_str::<syn::Block>`: the block's statements, or `None` where
/// `source` is no block.
#[verifier::external_body]
fn parse_block_model(source: &str) -> (r: Option<Vec<SynStmt>>)
    ensures
        match r {
            Some(v) => syn_block_model(source@) == Some(v@),
            None => syn_block_model(source@) is None,
        },
{
    syn::parse_str::<syn::Block>(source).ok().map(|block| block.stmts.iter().map(stmt_model).collect())
}

/// The inner attributes and the items of the file that
/// `syn::parse_str::<syn::File>` reads from `source`, read into plain values;
/// `None` where `source` is no Rust file.
pub uninterp spec fn syn_file_model(source: Seq<char>) -> Option<(Seq<SynAttribute>, Seq<SynItem>)>;

/// `syn::parse_str::<syn::File>`: the file's inner attributes and items, or
/// `None` where `source` is no Rust file.
#[verifier::external_body]
fn parse_file_model(source: &str) -> (r: Option<(Vec<SynAttribute>, Vec<SynItem>)>)
    ensures
        match r {
            Some(v) => syn_file_model(source@) == Some((v.0@, v.1@)),
            None => syn_file_model(source@) is None,
        },
{
    syn::parse_str::<syn::File>(source).ok().map(
        |file| (file.attrs.iter().map(attribute_model).collect(), file.items.iter().map(item_model).collect()),
    )
}

// ---------------------------------------------------------------------------
// Writing items back as tokens
// ---------------------------------------------------------------------------

/// An attribute that makes a function a test: `test`, `should_panic` or
/// `ignore`.
pub open spec fn is_test_attribute(a: SynAttribute) -> bool {
    match a.ident {
        Some(i) => i@ == "test"@ || i@ == "should_panic"@ || i@ == "ignore"@,
        None => false,
    }
}

/// The attributes of one style (inner or outer) among `attrs`, each followed
/// by a space; with `strip`, test attributes are left out.
pub open spec fn attributes_text(attrs: Seq<SynAttribute>, inner: bool, strip: bool) -> Seq<char>
    decreases attrs.len(),
{
    if attrs.len() == 0 {
        Seq::empty()
    } else {
        let a = attrs.last();
        attributes_text(attrs.drop_last(), inner, strip) + if a.inner == inner && !(strip && is_test_attribute(a)) {
            a.text@ + " "@
        } else {
            Seq::empty()
        }
    }
}

/// Texts, each followed by a space.
pub open spec fn spaced(texts: Seq<Seq<char>>) -> Seq<char>
    decreases texts.len(),
{
    if texts.len() == 0 {
        Seq::empty()
    } else {
        spaced(texts.drop_last()) + texts.last() + " "@
    }
}

/// A function written back as tokens.
pub open spec fn function_text(
    attributes: Seq<SynAttribute>,
    vis: Seq<char>,
    signature: Seq<char>,
    statements: Seq<Seq<char>>,
    strip: bool,
) -> Seq<char> {
    attributes_text(attributes, false, strip) + vis + " "@ + signature + " { "@ + attributes_text(
        attributes,
        true,
        strip,
    ) + spaced(statements) + "}"@
}

/// A module written back up to its items.
pub open spec fn module_open(attributes: Seq<SynAttribute>, vis: Seq<char>, is_unsafe: bool, name: Seq<char>) -> Seq<
    char,
> {
    attributes_text(attributes, false, false) + vis + " "@ + (if is_unsafe {
        "unsafe "@
    } else {
        Seq::empty()
    }) + "mod "@ + name + " { "@ + attributes_text(attributes, true, false)
}

/// An item written back as tokens; with `strip`, the test attributes of
/// every function, also inside modules, are left out.
pub open spec fn item_text(item: SynItem, strip: bool) -> Seq<char>
    decreases item, 0nat,
{
    match item {
        SynItem::Function { attributes, vis, signature, statements, .. } => function_text(
            attributes@,
            vis@,
            signature@,
            strings_view(statements@),
            strip,
        ),
        SynItem::Module { attributes, vis, is_unsafe, name, items } => module_open(attributes@, vis@, is_unsafe, name@)
            + items_text_upto(items, items@.len(), strip) + "}"@,
        SynItem::Other { text } => text@,
    }
}

/// The first `n` items of `items`, each written back and followed by a space.
pub open spec fn items_text_upto(items: Vec<SynItem>, n: nat, strip: bool) -> Seq<char>
    decreases items, n,
{
    if n == 0 || n > items@.len() {
        Seq::empty()
    } else {
        items_text_upto(items, (n - 1) as nat, strip) + item_text(items@[n - 1], strip) + " "@
    }
}

fn test_attribute(a: &SynAttribute) -> (r: bool)
    ensures
        r == is_test_attribute(*a),
{
    match &a.ident {
        Some(i) => crate::discovery::str_eq(i.as_str(), "test") || crate::discovery::str_eq(i.as_str(), "should_panic")
            || crate::discovery::str_eq(i.as_str(), "ignore"),
        None => false,
    }
}

fn write_attributes(attrs: &Vec<SynAttribute>, inner: bool, strip: bool, out: &mut Vec<char>)
    ensures
        final(out)@ == old(out)@ + attributes_text(attrs@, inner, strip),
{
    let ghost start = out@;
    let mut i: usize = 0;
    while i < attrs.len()
        invariant
            0 <= i <= attrs.len(),
            out@ == start + attributes_text(attrs@.take(i as int), inner, strip),
        decreases attrs.len() - i,
    {
        assert(attrs@.take(i + 1).drop_last() =~= attrs@.take(i as int));
        assert(attrs@.take(i + 1).last() == attrs@[i as int]);
        let a = &attrs[i];
        if a.inner == inner && !(strip && test_attribute(a)) {
            push_str_chars(out, a.text.as_str());
            push_str_chars(out, " ");
        }
        i = i + 1;
    }
    assert(attrs@.take(attrs.len() as int) =~= attrs@);
}

fn write_spaced(texts: &Vec<String>, out: &mut Vec<char>)
    ensures
        final(out)@ == old(out)@ + spaced(strings_view(texts@)),
{
    let ghost start = out@;
    let ghost tv = strings_view(texts@);
    let mut i: usize = 0;
    while i < texts.len()
        invariant
            0 <= i <= texts.len(),
            tv == strings_view(texts@),
            out@ == start + spaced(tv.take(i as int)),
        decreases texts.len() - i,
    {
        assert(tv.take(i + 1).drop_last() =~= tv.take(i as int));
        assert(tv.take(i + 1).last() == texts@[i as int]@);
        push_str_chars(out, texts[i].as_str());
        push_str_chars(out, " ");
        i = i + 1;
    }
    assert(tv.take(texts.len() as int) =~= tv);
}

fn write_function(
    attributes: &Vec<SynAttribute>,
    vis: &String,
    signature: &String,
    statements: &Vec<String>,
    strip: bool,
    out: &mut Vec<char>,
)
    ensures
        final(out)@ == old(out)@ + function_text(attributes@, vis@, signature@, strings_view(statements@), strip),
{
    let ghost start = out@;
    write_attributes(attributes, false, strip, out);
    push_str_chars(out, vis.as_str());
    push_str_chars(out, " ");
    push_str_chars(out, signature.as_str());
    push_str_chars(out, " { ");
    let ghost mid = out@;
    write_attributes(attributes, true, strip, out);
    write_spaced(statements, out);
    push_str_chars(out, "}");
    assert(out@ =~= start + function_text(attributes@, vis@, signature@, strings_view(statements@), strip));
}

fn write_module_open(attributes: &Vec<SynAttribute>, vis: &String, is_unsafe: bool, name: &String, out: &mut Vec<char>)
    ensures
        final(out)@ == old(out)@ + module_open(attributes@, vis@, is_unsafe, name@),
{
    let ghost start = out@;
    write_attributes(attributes, false, false, out);
    push_str_chars(out, vis.as_str());
    push_str_chars(out, " ");
    if is_unsafe {
        push_str_chars(out, "unsafe ");
    }
    push_str_chars(out, "mod ");
    push_str_chars(out, name.as_str());
    push_str_chars(out, " { ");
    write_attributes(attributes, true, false, out);
    assert(out@ =~= start + module_open(attributes@, vis@, is_unsafe, name@));
}

fn write_item(item: &SynItem, strip: bool, out: &mut Vec<char>)
    ensures
        final(out)@ == old(out)@ + item_text(*item, strip),
    decreases item, 0nat,
{
    let ghost start = out@;
    match item {
        SynItem::Function { attributes, vis, signature, statements, .. } => {
            write_function(attributes, vis, signature, statements, strip, out);
        },
        SynItem::Module { attributes, vis, is_unsafe, name, items } => {
            write_module_open(attributes, vis, *is_unsafe, name, out);
            write_items_upto(items, items.len(), strip, out);
            push_str_chars(out, "}");
            assert(out@ =~= start + item_text(*item, strip));
        },
        SynItem::Other { text } => {
            push_str_chars(out, text.as_str());
        },
    }
}

fn write_items_upto(items: &Vec<SynItem>, n: usize, strip: bool, out: &mut Vec<char>)
    requires
        n <= items@.len(),
    ensures
        final(out)@ == old(out)@ + items_text_upto(*items, n as nat, strip),
    decreases items, n,
{
    let ghost start = out@;
    if n > 0 {
        write_items_upto(items, n - 1, strip, out);
        write_item(&items[n - 1], strip, out);
        push_str_chars(out, " ");
        assert(out@ =~= start + items_text_upto(*items, n as nat, strip));
    }
}

// ---------------------------------------------------------------------------
// Rendering the snippets of a document
// ---------------------------------------------------------------------------

/// The items among a block's statements, in order.
pub open spec fn block_items(stmts: Seq<SynStmt>) -> Seq<SynItem>
    decreases stmts.len(),
{
    if stmts.len() == 0 {
        Seq::empty()
    } else {
        block_items(stmts.drop_last()) + match stmts.last() {
            SynStmt::Item(item) => seq![item],
            SynStmt::Other(_) => Seq::empty(),
        }
    }
}

/// The statements of a block that are not items, as tokens, in order.
pub open spec fn block_statements(stmts: Seq<SynStmt>) -> Seq<Seq<char>>
    decreases stmts.len(),
{
    if stmts.len() == 0 {
        Seq::empty()
    } else {
        block_statements(stmts.drop_last()) + match stmts.last() {
            SynStmt::Item(_) => Seq::empty(),
            SynStmt::Other(text) => seq![text@],
        }
    }
}

/// Items written back, each followed by a space.
pub open spec fn items_text(items: Seq<SynItem>, strip: bool) -> Seq<char>
    decreases items.len(),
{
    if items.len() == 0 {
        Seq::empty()
    } else {
        items_text(items.drop_last(), strip) + item_text(items.last(), strip) + " "@
    }
}

/// The names of the functions among `items`, in order.
pub open spec fn function_names(items: Seq<SynItem>) -> Seq<Seq<char>>
    decreases items.len(),
{
    if items.len() == 0 {
        Seq::empty()
    } else {
        function_names(items.drop_last()) + match items.last() {
            SynItem::Function { name, .. } => seq![name@],
            _ => Seq::empty(),
        }
    }
}

/// All of the attributes, as tokens, each followed by a space.
pub open spec fn all_attributes_text(attrs: Seq<SynAttribute>) -> Seq<char>
    decreases attrs.len(),
{
    if attrs.len() == 0 {
        Seq::empty()
    } else {
        all_attributes_text(attrs.drop_last()) + attrs.last().text@ + " "@
    }
}

/// What one snippet contributes to its document's test target.
pub struct RenderedSnippet {
    pub line: nat,
    pub attributes: Seq<char>,
    pub items: Seq<char>,
    pub statements: Option<Seq<char>>,
    pub no_run: bool,
    pub runs_main: bool,
}

/// A snippet with its hidden lines shown is read as the body of a block; if
/// it is none, as a file, whose inner attributes it then keeps. The
/// statements that are not items run in a function of their own; the items
/// stay, with the test attributes of their functions taken out when the
/// snippet is only compiled; and its `main` runs as a test unless it is only
/// compiled. `None` where the snippet is neither block nor file.
pub open spec fn snippet_render(s: SnippetView) -> Option<RenderedSnippet> {
    let code = unhide_spec(s.code);
    let no_run = s.attributes.contains("no_run"@);
    match syn_block_model("{\n"@ + code + "\n}"@) {
        Some(stmts) => {
            let items = block_items(stmts);
            let statements = block_statements(stmts);
            Some(
                RenderedSnippet {
                    line: s.line,
                    attributes: Seq::empty(),
                    items: items_text(items, no_run),
                    statements: if statements.len() == 0 {
                        None
                    } else {
                        Some(spaced(statements))
                    },
                    no_run,
                    runs_main: runs_main_spec(no_run, function_names(items)),
                },
            )
        },
        None => match syn_file_model(code) {
            None => None,
            Some((attrs, items)) => Some(
                RenderedSnippet {
                    line: s.line,
                    attributes: all_attributes_text(attrs),
                    items: items_text(items, no_run),
                    statements: None,
                    no_run,
                    runs_main: runs_main_spec(no_run, function_names(items)),
                },
            ),
        },
    }
}

pub open spec fn parts_rendered(p: SnippetParts) -> RenderedSnippet {
    RenderedSnippet {
        line: p.line as nat,
        attributes: p.attributes@,
        items: p.items@,
        statements: match p.statements {
            Some(t) => Some(t@),
            None => None,
        },
        no_run: p.no_run,
        runs_main: p.runs_main,
    }
}

/// The rendered snippets as modules, each later one nested in the one before.
pub open spec fn nest_rendered(ps: Seq<RenderedSnippet>) -> Seq<char>
    decreases ps.len(),
{
    if ps.len() == 0 {
        Seq::empty()
    } else {
        snippet_module_spec(
            ps[0].line,
            ps[0].attributes,
            ps[0].items,
            ps[0].statements,
            ps[0].no_run,
            ps[0].runs_main,
            nest_rendered(ps.drop_first()),
        )
    }
}

proof fn lemma_nest_rendered(parts: Seq<SnippetParts>)
    ensures
        nest_spec(parts) == nest_rendered(parts.map_values(|p: SnippetParts| parts_rendered(p))),
    decreases parts.len(),
{
    if parts.len() > 0 {
        lemma_nest_rendered(parts.drop_first());
        assert(parts.drop_first().map_values(|p: SnippetParts| parts_rendered(p)) =~= parts.map_values(
            |p: SnippetParts| parts_rendered(p),
        ).drop_first());
    }
}

/// The rendered snippets at `ordinary`, in order, or the line of the first
/// that is neither block nor file.
pub open spec fn render_parts(snips: Seq<SnippetView>, ordinary: Seq<usize>) -> Result<Seq<RenderedSnippet>, nat>
    decreases ordinary.len(),
{
    if ordinary.len() == 0 {
        Ok(Seq::empty())
    } else {
        match render_parts(snips, ordinary.drop_last()) {
            Err(line) => Err(line),
            Ok(ps) => {
                let s = snips[ordinary.last() as int];
                match snippet_render(s) {
                    None => Err(s.line),
                    Some(p) => Ok(ps.push(p)),
                }
            },
        }
    }
}

/// Why a document's test target cannot be rendered, as a plain value.
pub enum RenderFailure {
    Parse { line: nat },
    Generate,
}

/// The test target of a document from its snippets at `ordinary`: the
/// snippets' modules, nested, in a file, which must read as a Rust file.
pub open spec fn render_spec(snips: Seq<SnippetView>, ordinary: Seq<usize>) -> Result<Seq<char>, RenderFailure> {
    match render_parts(snips, ordinary) {
        Err(line) => Err(RenderFailure::Parse { line }),
        Ok(ps) => {
            let source = document_source_spec(nest_rendered(ps));
            if syn_file_model(source) is None {
                Err(RenderFailure::Generate)
            } else {
                Ok(source)
            }
        },
    }
}

/// Why a document's test target cannot be rendered.
#[derive(Debug)]
pub enum RenderError {
    /// The snippet at this line is neither block nor file.
    Parse { path: String, line: usize },
    /// The generated test target does not read as a Rust file.
    Generate { path: String },
}

impl RenderError {
    pub open spec fn message_spec(self) -> Seq<char> {
        match self {
            RenderError::Parse { path, line } => "failed to parse "@ + path@ + ":"@ + decimal(line as nat),
            RenderError::Generate { path } => "failed to generate "@ + path@,
        }
    }

    /// The message that reports this error.
    pub fn message(&self) -> (r: String)
        ensures
            r@ == self.message_spec(),
    {
        match self {
            RenderError::Parse { path, line } => {
                let mut out = chars_of("failed to parse ");
                push_str_chars(&mut out, path.as_str());
                push_str_chars(&mut out, ":");
                push_decimal(&mut out, *line as u64);
                string_of(&out)
            },
            RenderError::Generate { path } => {
                let mut out = chars_of("failed to generate ");
                push_str_chars(&mut out, path.as_str());
                string_of(&out)
            },
        }
    }
}

fn write_all_attributes(attrs: &Vec<SynAttribute>, out: &mut Vec<char>)
    ensures
        final(out)@ == old(out)@ + all_attributes_text(attrs@),
{
    let ghost start = out@;
    let mut i: usize = 0;
    while i < attrs.len()
        invariant
            0 <= i <= attrs.len(),
            out@ == start + all_attributes_text(attrs@.take(i as int)),
        decreases attrs.len() - i,
    {
        assert(attrs@.take(i + 1).drop_last() =~= attrs@.take(i as int));
        assert(attrs@.take(i + 1).last() == attrs@[i as int]);
        push_str_chars(out, attrs[i].text.as_str());
        push_str_chars(out, " ");
        i = i + 1;
    }
    assert(attrs@.take(attrs.len() as int) =~= attrs@);
}

/// Writes one item of a snippet and notes its name when it is a function.
fn add_item(item: &SynItem, strip: bool, out: &mut Vec<char>, names: &mut Vec<String>)
    ensures
        final(out)@ == old(out)@ + item_text(*item, strip) + " "@,
        strings_view(final(names)@) == strings_view(old(names)@) + match *item {
            SynItem::Function { name, .. } => seq![name@],
            _ => Seq::<Seq<char>>::empty(),
        },
{
    write_item(item, strip, out);
    push_str_chars(out, " ");
    let ghost before = strings_view(names@);
    match item {
        SynItem::Function { name, .. } => {
            names.push(name.clone());
            assert(strings_view(names@) =~= before + seq![name@]);
        },
        _ => {
            assert(strings_view(names@) =~= before + Seq::<Seq<char>>::empty());
        },
    }
}

fn file_items(items: &Vec<SynItem>, strip: bool, out: &mut Vec<char>, names: &mut Vec<String>)
    ensures
        final(out)@ == old(out)@ + items_text(items@, strip),
        strings_view(final(names)@) == strings_view(old(names)@) + function_names(items@),
{
    let ghost start = out@;
    let ghost names0 = strings_view(names@);
    let mut i: usize = 0;
    while i < items.len()
        invariant
            0 <= i <= items.len(),
            out@ == start + items_text(items@.take(i as int), strip),
            strings_view(names@) == names0 + function_names(items@.take(i as int)),
        decreases items.len() - i,
    {
        assert(items@.take(i + 1).drop_last() =~= items@.take(i as int));
        assert(items@.take(i + 1).last() == items@[i as int]);
        add_item(&items[i], strip, out, names);
        i = i + 1;
    }
    assert(items@.take(items.len() as int) =~= items@);
}

fn block_parts(stmts: &Vec<SynStmt>, strip: bool, out: &mut Vec<char>, names: &mut Vec<String>) -> (r: Vec<String>)
    ensures
        final(out)@ == old(out)@ + items_text(block_items(stmts@), strip),
        strings_view(final(names)@) == strings_view(old(names)@) + function_names(block_items(stmts@)),
        strings_view(r@) == block_statements(stmts@),
{
    let ghost start = out@;
    let ghost names0 = strings_view(names@);
    let mut statements: Vec<String> = Vec::new();
    let mut i: usize = 0;
    while i < stmts.len()
        invariant
            0 <= i <= stmts.len(),
            out@ == start + items_text(block_items(stmts@.take(i as int)), strip),
            strings_view(names@) == names0 + function_names(block_items(stmts@.take(i as int))),
            strings_view(statements@) == block_statements(stmts@.take(i as int)),
        decreases stmts.len() - i,
    {
        let ghost prefix = stmts@.take(i as int);
        assert(stmts@.take(i + 1).drop_last() =~= prefix);
        assert(stmts@.take(i + 1).last() == stmts@[i as int]);
        match &stmts[i] {
            SynStmt::Item(item) => {
                let ghost items = block_items(prefix);
                assert(block_items(stmts@.take(i + 1)) =~= items.push(*item));
                assert(items.push(*item).drop_last() =~= items);
                assert(function_names(items.push(*item)) == function_names(items) + match *item {
                    SynItem::Function { name, .. } => seq![name@],
                    _ => Seq::<Seq<char>>::empty(),
                });
                add_item(item, strip, out, names);
                assert(block_statements(stmts@.take(i + 1)) =~= block_statements(prefix));
            },
            SynStmt::Other(text) => {
                let ghost before = strings_view(statements@);
                statements.push(text.clone());
                assert(strings_view(statements@) =~= before.push(text@));
                assert(block_items(stmts@.take(i + 1)) =~= block_items(prefix));
                assert(block_statements(stmts@.take(i + 1)) =~= block_statements(prefix).push(text@));
            },
        }
        i = i + 1;
    }
    assert(stmts@.take(stmts.len() as int) =~= stmts@);
    statements
}

/// What one snippet contributes to its document's test target; see
/// `snippet_render`.
pub fn render_snippet(snippet: &Snippet) -> (r: Option<SnippetParts>)
    ensures
        match snippet_render(snippet@) {
            Some(p) => r matches Some(x) && parts_rendered(x) == p,
            None => r is None,
        },
{
    let code = unhide(snippet.code.as_str());
    let no_run = is_no_run(snippet);
    let block = block_source(code.as_str());
    let mut items: Vec<char> = Vec::new();
    let mut names: Vec<String> = Vec::new();
    proof {
        assert(strings_view(names@) =~= Seq::<Seq<char>>::empty());
    }
    match parse_block_model(block.as_str()) {
        Some(stmts) => {
            let statements = block_parts(&stmts, no_run, &mut items, &mut names);
            assert(items@ =~= items_text(block_items(stmts@), no_run));
            assert(strings_view(names@) =~= function_names(block_items(stmts@)));
            let runs = runs_main(no_run, &names);
            let text = if statements.len() == 0 {
                None
            } else {
                let mut t: Vec<char> = Vec::new();
                write_spaced(&statements, &mut t);
                assert(t@ =~= spaced(block_statements(stmts@)));
                Some(string_of(&t))
            };
            Some(
                SnippetParts {
                    line: snippet.line,
                    attributes: String::new(),
                    items: string_of(&items),
                    statements: text,
                    no_run,
                    runs_main: runs,
                },
            )
        },
        None => match parse_file_model(code.as_str()) {
            None => None,
            Some((attrs, file_items_list)) => {
                let mut attributes: Vec<char> = Vec::new();
                write_all_attributes(&attrs, &mut attributes);
                assert(attributes@ =~= all_attributes_text(attrs@));
                file_items(&file_items_list, no_run, &mut items, &mut names);
                assert(items@ =~= items_text(file_items_list@, no_run));
                assert(strings_view(names@) =~= function_names(file_items_list@));
                let runs = runs_main(no_run, &names);
                Some(
                    SnippetParts {
                        line: snippet.line,
                        attributes: string_of(&attributes),
                        items: string_of(&items),
                        statements: None,
                        no_run,
                        runs_main: runs,
                    },
                )
            },
        },
    }
}

/// The test target of a document from its snippets at `ordinary`: each
/// snippet read and written back as `render_snippet` says, and the snippets
/// nested as modules in a file that must read as a Rust file; see
/// `render_spec`. Laying the text out for readers is left to the caller.
pub fn render_document(document: &Document, ordinary: &Vec<usize>) -> (r: Result<String, RenderError>)
    requires
        forall|j: int| 0 <= j < ordinary@.len() ==> (#[trigger] ordinary@[j]) < document.snippets@.len(),
    ensures
        match render_spec(document@.snippets, ordinary@) {
            Ok(text) => r matches Ok(s) && s@ == text,
            Err(RenderFailure::Parse { line }) => r matches Err(RenderError::Parse { path, line: l }) && path@
                == document.path@ && l == line,
            Err(RenderFailure::Generate) => r matches Err(RenderError::Generate { path }) && path@
                == document.path@,
        },
{
    let ghost snips = document@.snippets;
    let mut parts: Vec<SnippetParts> = Vec::new();
    let mut j: usize = 0;
    proof {
        assert(ordinary@.take(0) =~= Seq::<usize>::empty());
        assert(parts@.map_values(|p: SnippetParts| parts_rendered(p)) =~= Seq::<RenderedSnippet>::empty());
    }
    while j < ordinary.len()
        invariant
            0 <= j <= ordinary.len(),
            snips == document@.snippets,
            forall|k: int| 0 <= k < ordinary@.len() ==> (#[trigger] ordinary@[k]) < document.snippets@.len(),
            render_parts(snips, ordinary@.take(j as int)) == Ok::<Seq<RenderedSnippet>, nat>(
                parts@.map_values(|p: SnippetParts| parts_rendered(p)),
            ),
        decreases ordinary.len() - j,
    {
        let index = ordinary[j];
        let snippet = &document.snippets[index];
        assert(ordinary@.take(j + 1).drop_last() =~= ordinary@.take(j as int));
        assert(ordinary@.take(j + 1).last() == index);
        assert(snips[index as int] == snippet@);
        match render_snippet(snippet) {
            None => {
                proof {
                    lemma_render_error_persists(snips, ordinary@, j + 1);
                }
                return Err(RenderError::Parse { path: document.path.clone(), line: snippet.line });
            },
            Some(p) => {
                let ghost before = parts@.map_values(|q: SnippetParts| parts_rendered(q));
                parts.push(p);
                assert(parts@.map_values(|q: SnippetParts| parts_rendered(q)) =~= before.push(parts_rendered(p)));
            },
        }
        j = j + 1;
    }
    proof {
        assert(ordinary@.take(ordinary.len() as int) =~= ordinary@);
        lemma_nest_rendered(parts@);
    }
    let source = nest_modules(&parts);
    match parse_file_model(source.as_str()) {
        Some(_) => Ok(source),
        None => Err(RenderError::Generate { path: document.path.clone() }),
    }
}

proof fn lemma_render_error_persists(snips: Seq<SnippetView>, ordinary: Seq<usize>, k: int)
    requires
        0 <= k <= ordinary.len(),
        render_parts(snips, ordinary.take(k)) is Err,
    ensures
        render_parts(snips, ordinary) == render_parts(snips, ordinary.take(k)),
    decreases ordinary.len() - k,
{
    if k < ordinary.len() {
        assert(ordinary.take(k + 1).drop_last() =~= ordinary.take(k));
        lemma_render_error_persists(snips, ordinary, k + 1);
    } else {
        assert(ordinary.take(k) =~= ordinary);
    }
}

// ---------------------------------------------------------------------------
// The test targets of a skill's crate
// ---------------------------------------------------------------------------

/// Whether `e` reports the failure `f` for the document at `path`.
pub open spec fn render_error_is(e: RenderError, path: Seq<char>, f: RenderFailure) -> bool {
    match f {
        RenderFailure::Parse { line } => e matches RenderError::Parse { path: p, line: l } && p@ == path && l == line,
        RenderFailure::Generate => e matches RenderError::Generate { path: p } && p@ == path,
    }
}

/// The test target of each document, in order: none for a document without
/// shared snippets, else its shared snippets rendered; the first document
/// that cannot be rendered stops with its path and why.
pub open spec fn targets_spec(docs: Seq<DocumentView>) -> Result<Seq<Option<Seq<char>>>, (Seq<char>, RenderFailure)>
    decreases docs.len(),
{
    if docs.len() == 0 {
        Ok(Seq::empty())
    } else {
        match targets_spec(docs.drop_last()) {
            Err(e) => Err(e),
            Ok(ts) => {
                let d = docs.last();
                let ordinary = ordinary_indices(d.snippets);
                if ordinary.len() == 0 {
                    Ok(ts.push(None))
                } else {
                    match render_spec(d.snippets, ordinary) {
                        Ok(text) => Ok(ts.push(Some(text))),
                        Err(f) => Err((d.path, f)),
                    }
                }
            },
        }
    }
}

proof fn lemma_targets_error_persists(docs: Seq<DocumentView>, k: int)
    requires
        0 <= k <= docs.len(),
        targets_spec(docs.take(k)) is Err,
    ensures
        targets_spec(docs) == targets_spec(docs.take(k)),
    decreases docs.len() - k,
{
    if k < docs.len() {
        assert(docs.take(k + 1).drop_last() =~= docs.take(k));
        lemma_targets_error_persists(docs, k + 1);
    } else {
        assert(docs.take(k) =~= docs);
    }
}

/// The test targets of the documents at `selected`; see `targets_spec`.
pub fn render_targets(documents: &Vec<Document>, selected: &Vec<usize>) -> (r: Result<Vec<Option<String>>, RenderError>)
    requires
        forall|j: int| 0 <= j < selected@.len() ==> (#[trigger] selected@[j]) < documents@.len(),
    ensures
        match targets_spec(selected_documents(documents@, selected@)) {
            Ok(ts) => r matches Ok(v) && rendered_view(v@) == ts,
            Err((path, f)) => r matches Err(e) && render_error_is(e, path, f),
        },
        r matches Ok(v) ==> v@.len() == selected@.len() && forall|j: int|
            0 <= j < selected@.len() && has_ordinary(documents@[(#[trigger] selected@[j]) as int]@.snippets)
                ==> v@[j] is Some,
{
    let ghost docs = selected_documents(documents@, selected@);
    let mut targets: Vec<Option<String>> = Vec::new();
    let mut j: usize = 0;
    proof {
        assert(docs.take(0) =~= Seq::<DocumentView>::empty());
        assert(rendered_view(targets@) =~= Seq::<Option<Seq<char>>>::empty());
    }
    while j < selected.len()
        invariant
            0 <= j <= selected.len(),
            docs == selected_documents(documents@, selected@),
            forall|k: int| 0 <= k < selected@.len() ==> (#[trigger] selected@[k]) < documents@.len(),
            targets_spec(docs.take(j as int)) == Ok::<Seq<Option<Seq<char>>>, (Seq<char>, RenderFailure)>(
                rendered_view(targets@),
            ),
            targets@.len() == j,
            forall|k: int|
                0 <= k < j && has_ordinary(documents@[(#[trigger] selected@[k]) as int]@.snippets)
                    ==> targets@[k] is Some,
        decreases selected.len() - j,
    {
        let document = &documents[selected[j]];
        assert(docs.take(j + 1).drop_last() =~= docs.take(j as int));
        assert(docs.take(j + 1).last() == document@);
        let ordinary = ordinary_snippets(&document.snippets);
        let ghost before = rendered_view(targets@);
        if ordinary.len() == 0 {
            targets.push(None);
            assert(rendered_view(targets@) =~= before.push(None));
        } else {
            match render_document(document, &ordinary) {
                Ok(text) => {
                    let ghost t = text@;
                    targets.push(Some(text));
                    assert(rendered_view(targets@) =~= before.push(Some(t)));
                },
                Err(e) => {
                    proof {
                        lemma_targets_error_persists(docs, j + 1);
                    }
                    return Err(e);
                },
            }
        }
        j = j + 1;
    }
    proof {
        assert(docs.take(selected.len() as int) =~= docs);
    }
    Ok(targets)
}

/// Why a skill's crate cannot be laid out.
#[derive(Debug)]
pub enum SkillCrateError {
    Render(RenderError),
    Target(TargetNameError),
}

/// The files of a skill's generated crate: the test targets of the
/// documents at `selected` rendered as `render_targets` says, and the crate
/// laid out around them as `prepare` says.
pub fn plan_skill_crate(
    skill: &str,
    setup: &Setup,
    lints: &str,
    documents: &Vec<Document>,
    selected: &Vec<usize>,
) -> (r: Result<Vec<GeneratedFile>, SkillCrateError>)
    requires
        forall|j: int| 0 <= j < selected@.len() ==> (#[trigger] selected@[j]) < documents@.len(),
    ensures
        match targets_spec(selected_documents(documents@, selected@)) {
            Err((path, f)) => r matches Err(SkillCrateError::Render(e)) && render_error_is(e, path, f),
            Ok(ts) => match prepare_spec(
                skill@,
                setup.rust_version@,
                setup.cargo@,
                lints@,
                selected_documents(documents@, selected@),
                ts,
            ) {
                Ok(files) => r matches Ok(v) && generated_view(v@) == files,
                Err(p) => r matches Err(SkillCrateError::Target(e)) && e.path@ == p,
            },
        },
{
    let rendered = match render_targets(documents, selected) {
        Ok(v) => v,
        Err(e) => {
            return Err(SkillCrateError::Render(e));
        },
    };
    match prepare(skill, setup, lints, documents, selected, &rendered) {
        Ok(files) => Ok(files),
        Err(e) => Err(SkillCrateError::Target(e)),
    }
}

} // verus!
