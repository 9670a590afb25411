//! Rendering of normalized block trees into HTML nodes.

use vstd::prelude::*;
use vstd::string::StringExecFns;

use crate::block_tree::BlockTree;
use crate::block_tree::BlockTreeNodeVariants;
use crate::html::color_style;
use crate::html::get_color_style;
use crate::html::HtmlElement;
use crate::html::HtmlNode;
use crate::notion::Block;
use crate::notion::BlockVariants;
use crate::notion::CalloutBlock;
use crate::notion::CodeBlock;
use crate::notion::EquationBlock;
use crate::notion::EquationRichText;
use crate::notion::File;
use crate::notion::FileOrEmoji;
use crate::notion::HeadingBlock;
use crate::notion::ListItemBlock;
use crate::notion::ParagraphBlock;
use crate::notion::QuoteBlock;
use crate::notion::RichText;
use crate::notion::RichTextAnnotations;
use crate::notion::TableBlock;
use crate::notion::TableRowBlock;
use crate::notion::TextRichText;

verus! {

/// The class attribute that the given annotations produce: the color class,
/// followed by one word for each style flag that is on.
pub open spec fn annotation_class(annot: RichTextAnnotations) -> Seq<char> {
    seq!['c', 'o', 'l', 'o', 'r', '-'] + color_style(annot.color@) + (if annot.bold {
        seq![' ', 'b', 'o', 'l', 'd']
    } else {
        Seq::<char>::empty()
    }) + (if annot.italic {
        seq![' ', 'i', 't', 'a', 'l', 'i', 'c']
    } else {
        Seq::<char>::empty()
    }) + (if annot.strikethrough {
        seq![' ', 's', 't', 'r', 'i', 'k', 'e', 't', 'h', 'r', 'o', 'u', 'g', 'h']
    } else {
        Seq::<char>::empty()
    }) + (if annot.underline {
        seq![' ', 'u', 'n', 'd', 'e', 'r', 'l', 'i', 'n', 'e']
    } else {
        Seq::<char>::empty()
    })
}

/// Create an inline element with the given tag, holding the given text as
/// its only child.
pub fn create_inline_element(tag: &'static str, inner_text: String) -> (r: HtmlElement)
    ensures
        r.tag@ == tag@,
        r.props@.len() == 0,
        r.children@ =~= seq![HtmlNode::Text(inner_text)],
{
    let mut span = HtmlElement::new(tag);
    span.children.push(HtmlNode::Text(inner_text));
    span
}

/// Set the `class` property of the given element from the given rich text
/// annotations: the color class followed by one word per style flag.
#[verifier::loop_isolation(false)]
pub fn set_rich_text_annotation_styles(span_element: &mut HtmlElement, annot: &RichTextAnnotations)
    ensures
        final(span_element).tag == old(span_element).tag,
        final(span_element).children == old(span_element).children,
        final(span_element).props@.len() == old(span_element).props@.len() + 1,
        forall|k: int|
            0 <= k < old(span_element).props@.len() ==> final(span_element).props@[k] == old(
                span_element,
            ).props@[k],
        final(span_element).props@.last().0@ == "class"@,
        final(span_element).props@.last().1@ == annotation_class(*annot),
    {
    let mut styles = get_color_style(annot.color.as_str());
    if annot.bold {
        styles.append(" bold");
    }
    if annot.italic {
        styles.append(" italic");
    }
    if annot.strikethrough {
        styles.append(" strikethrough");
    }
    if annot.underline {
        styles.append(" underline");
    }
    proof {
        reveal_strlit(" bold");
        reveal_strlit(" italic");
        reveal_strlit(" strikethrough");
        reveal_strlit(" underline");
        assert(styles@ =~= annotation_class(*annot));
    }
    let name = String::from_str("class");
    proof {
        reveal_strlit("class");
    }
    span_element.set_prop(name, styles);
}

/// Render a plain text span into a `span` element.
pub fn render_text_rich_text(rt: &TextRichText) -> (r: HtmlElement)
    ensures
        r.tag@ == "span"@,
        r.props@.len() == 0,
        r.children@ =~= seq![HtmlNode::Text(rt.content)],
{
    create_inline_element("span", rt.content.clone())
}

/// Render a monospace text span into a `code` element.
pub fn render_code_rich_text(rt: &TextRichText) -> (r: HtmlElement)
    ensures
        r.tag@ == "code"@,
        r.props@.len() == 0,
        r.children@ =~= seq![HtmlNode::Text(rt.content)],
{
    create_inline_element("code", rt.content.clone())
}

/// Render an inline equation span into a `span` element holding the
/// expression between dollar signs.
pub fn render_equation_rich_text(rt: &EquationRichText) -> (r: HtmlElement)
    ensures
        r.tag@ == "span"@,
        r.props@.len() == 0,
        r.children@.len() == 1,
        r.children@[0] matches HtmlNode::Text(t) && t@ == seq!['$'] + rt.expression@ + seq!['$'],
{
    let mut text = String::from_str("$");
    text.append(rt.expression.as_str());
    text.append("$");
    proof {
        reveal_strlit("$");
    }
    create_inline_element("span", text)
}

/// Whether `r` is the rendering of the rich text span `rt`: one inline
/// element whose only property is the class attribute of the span's
/// annotations, and whose only child is the span's text. A text span whose
/// monospace flag is on becomes a `span` element and one whose flag is off
/// becomes a `code` element; an equation span becomes a `span` element
/// holding the expression between dollar signs.
pub open spec fn is_rendered_rich_text(rt: RichText, r: HtmlNode) -> bool {
    match r {
        HtmlNode::Element(e) => {
            &&& e.props@.len() == 1
            &&& e.props@[0].0@ == "class"@
            &&& e.props@[0].1@ == annotation_class(rt.annotations)
            &&& e.children@.len() == 1
            &&& match rt.variants {
                crate::notion::RichTextVariants::Text(t) => {
                    &&& e.tag@ == if rt.annotations.code {
                        "span"@
                    } else {
                        "code"@
                    }
                    &&& e.children@[0] matches HtmlNode::Text(s) && s@ == t.content@
                },
                crate::notion::RichTextVariants::Equation(q) => {
                    &&& e.tag@ == "span"@
                    &&& e.children@[0] matches HtmlNode::Text(s) && s@ == seq!['$'] + q.expression@
                        + seq!['$']
                },
            }
        },
        HtmlNode::Text(_) => false,
    }
}

/// Render the given rich text span into an HTML node: an inline element for
/// its kind, carrying the class attribute of its annotations. A text span
/// with the monospace flag on is rendered as a plain `span` and one with the
/// flag off as a `code` element.
pub fn render_rich_text(rt: &RichText) -> (r: HtmlNode)
    ensures
        is_rendered_rich_text(*rt, r),
{
    let mut node = match &rt.variants {
        crate::notion::RichTextVariants::Text(text) => {
            if rt.annotations.code {
                render_text_rich_text(text)
            } else {
                render_code_rich_text(text)
            }
        },
        crate::notion::RichTextVariants::Equation(equation) => render_equation_rich_text(equation),
    };
    set_rich_text_annotation_styles(&mut node, &rt.annotations);
    HtmlNode::Element(node)
}

/// Render the given rich text spans, in order: one rendered node per span.
#[verifier::loop_isolation(false)]
pub fn render_rich_text_array(rt: &Vec<RichText>) -> (r: Vec<HtmlNode>)
    ensures
        r@.len() == rt@.len(),
        forall|k: int| 0 <= k < rt@.len() ==> is_rendered_rich_text(rt@[k], #[trigger] r@[k]),
{
    let mut out: Vec<HtmlNode> = Vec::new();
    let mut i: usize = 0;
    while i < rt.len()
        invariant
            i <= rt.len(),
            out@.len() == i,
            forall|k: int| 0 <= k < i ==> is_rendered_rich_text(rt@[k], #[trigger] out@[k]),
        decreases rt.len() - i,
    {
        out.push(render_rich_text(&rt[i]));
        i = i + 1;
    }
    out
}

/// The concatenated plain text of a sequence of rich text spans.
pub open spec fn plain_text_of(rt: Seq<RichText>) -> Seq<char>
    decreases rt.len(),
{
    if rt.len() == 0 {
        Seq::<char>::empty()
    } else {
        plain_text_of(rt.drop_last()) + rt.last().plain_text@
    }
}

/// Render the given rich texts into plain text, discarding any style
/// settings.
#[verifier::loop_isolation(false)]
pub fn render_rich_texts_to_plain_text(rt: &Vec<RichText>) -> (r: String)
    ensures
        r@ == plain_text_of(rt@),
{
    let mut rendered = String::new();
    let mut i: usize = 0;
    proof {
        assert(rendered@ =~= plain_text_of(rt@.take(0)));
    }
    while i < rt.len()
        invariant
            i <= rt.len(),
            rendered@ == plain_text_of(rt@.take(i as int)),
        decreases rt.len() - i,
    {
        rendered.append(rt[i].plain_text.as_str());
        proof {
            assert(rt@.take(i + 1).drop_last() =~= rt@.take(i as int));
            assert(rt@.take(i + 1).last() == rt@[i as int]);
            assert(rendered@ =~= plain_text_of(rt@.take(i + 1)));
        }
        i = i + 1;
    }
    proof {
        assert(rt@.take(rt@.len() as int) =~= rt@);
    }
    rendered
}

fn class_prop(el: &mut HtmlElement, kind: &'static str, color: &str)
    ensures
        final(el).tag == old(el).tag,
        final(el).children == old(el).children,
        final(el).props@.len() == old(el).props@.len() + 1,
        final(el).props@.last().0@ == "class"@,
{
    let mut class = String::from_str(kind);
    class.append(" ");
    let color_class = get_color_style(color);
    class.append(color_class.as_str());
    let name = String::from_str("class");
    proof {
        reveal_strlit("class");
    }
    el.set_prop(name, class);
}

/// Render a paragraph block into a `p` element.
pub fn render_paragraph_block(b: &ParagraphBlock) -> (r: HtmlNode)
    ensures
        r matches HtmlNode::Element(e) && e.tag@ == "p"@ && e.children@.len() == b.rich_text@.len(),
{
    let mut p_el = HtmlElement::new("p");
    class_prop(&mut p_el, "paragraph", b.color.as_str());
    p_el.children = render_rich_text_array(&b.rich_text);
    HtmlNode::Element(p_el)
}

/// Render a heading block of the given level (1 to 3) into an `h1`, `h2` or
/// `h3` element.
pub fn render_heading_block(b: &HeadingBlock, level: i32) -> (r: HtmlNode)
    requires
        1 <= level <= 3,
    ensures
        r matches HtmlNode::Element(e) && e.children@.len() == b.rich_text@.len() && (level == 1
            ==> e.tag@ == "h1"@) && (level == 2 ==> e.tag@ == "h2"@) && (level == 3 ==> e.tag@
            == "h3"@),
{
    let tag: &'static str = if level == 1 {
        "h1"
    } else if level == 2 {
        "h2"
    } else {
        "h3"
    };
    let mut h_el = HtmlElement::new(tag);
    class_prop(&mut h_el, "heading", b.color.as_str());
    h_el.children = render_rich_text_array(&b.rich_text);
    HtmlNode::Element(h_el)
}

/// Render a callout block into a `div` element, with the emoji icon in its
/// own child `div` when the callout carries one.
pub fn render_callout_block(b: &CalloutBlock) -> (r: HtmlNode)
    ensures
        r matches HtmlNode::Element(e) && e.tag@ == "div"@,
{
    let mut div_el = HtmlElement::new("div");
    class_prop(&mut div_el, "callout", b.color.as_str());
    if let FileOrEmoji::Emoji(emoji) = &b.icon {
        let mut icon_div_el = HtmlElement::new("div");
        let name = String::from_str("class");
        proof {
            reveal_strlit("class");
        }
        icon_div_el.set_prop(name, String::from_str("callout-icon"));
        icon_div_el.children.push(HtmlNode::Text(emoji.clone()));
        div_el.children.push(HtmlNode::Element(icon_div_el));
    }
    let mut content_div_el = HtmlElement::new("div");
    let name = String::from_str("class");
    proof {
        reveal_strlit("class");
    }
    content_div_el.set_prop(name, String::from_str("callout-content"));
    content_div_el.children = render_rich_text_array(&b.rich_text);
    div_el.children.push(HtmlNode::Element(content_div_el));
    HtmlNode::Element(div_el)
}

/// Render a quote block into a `div` element.
pub fn render_quote_block(b: &QuoteBlock) -> (r: HtmlNode)
    ensures
        r matches HtmlNode::Element(e) && e.tag@ == "div"@ && e.children@.len()
            == b.rich_text@.len(),
{
    let mut div_el = HtmlElement::new("div");
    class_prop(&mut div_el, "quote", b.color.as_str());
    div_el.children = render_rich_text_array(&b.rich_text);
    HtmlNode::Element(div_el)
}

/// Render a list item block into an `li` element.
pub fn render_list_item_block(b: &ListItemBlock) -> (r: HtmlNode)
    ensures
        r matches HtmlNode::Element(e) && e.tag@ == "li"@ && e.children@.len()
            == b.rich_text@.len(),
{
    let mut li_el = HtmlElement::new("li");
    class_prop(&mut li_el, "list-item", b.color.as_str());
    li_el.children = render_rich_text_array(&b.rich_text);
    HtmlNode::Element(li_el)
}

/// Render a code block into a `div` holding its caption and a `pre` element
/// with the code as plain text.
pub fn render_code_block(b: &CodeBlock) -> (r: HtmlNode)
    ensures
        r matches HtmlNode::Element(e) && e.tag@ == "div"@ && e.children@.len() == 2,
{
    let mut div_el = HtmlElement::new("div");
    let name = String::from_str("class");
    proof {
        reveal_strlit("class");
    }
    div_el.set_prop(name, String::from_str("code"));

    let mut caption_div_el = HtmlElement::new("div");
    let name2 = String::from_str("class");
    proof {
        reveal_strlit("class");
    }
    caption_div_el.set_prop(name2, String::from_str("code-caption"));
    caption_div_el.children = render_rich_text_array(&b.caption);
    div_el.children.push(HtmlNode::Element(caption_div_el));

    let mut pre_el = HtmlElement::new("pre");
    let mut pre_class = String::from_str("code-content ");
    pre_class.append(b.language.as_str());
    let name3 = String::from_str("class");
    proof {
        reveal_strlit("class");
    }
    pre_el.set_prop(name3, pre_class);
    let code = render_rich_texts_to_plain_text(&b.rich_text);
    pre_el.children.push(HtmlNode::Text(code));
    div_el.children.push(HtmlNode::Element(pre_el));

    HtmlNode::Element(div_el)
}

/// Render an image block into an `img` element whose source is the file's
/// URL.
pub fn render_image_block(b: &File) -> (r: HtmlNode)
    ensures
        r matches HtmlNode::Element(e) && e.tag@ == "img"@ && e.children@.len() == 0
            && e.props@.len() == 2,
{
    let mut image_el = HtmlElement::new("img");
    let name = String::from_str("class");
    proof {
        reveal_strlit("class");
    }
    image_el.set_prop(name, String::from_str("image"));
    let url = match b {
        File::ExternalFile(external) => external.url.clone(),
        File::NotionHostedFile(file) => file.url.clone(),
    };
    let src = String::from_str("src");
    proof {
        reveal_strlit("src");
    }
    image_el.set_prop(src, url);
    HtmlNode::Element(image_el)
}

/// Render an equation block into a `div` holding the expression as text.
pub fn render_equation_block(b: &EquationBlock) -> (r: HtmlNode)
    ensures
        r matches HtmlNode::Element(e) && e.tag@ == "div"@ && e.children@ =~= seq![
            HtmlNode::Text(b.expression),
        ],
{
    let mut div_el = HtmlElement::new("div");
    let name = String::from_str("class");
    proof {
        reveal_strlit("class");
    }
    div_el.set_prop(name, String::from_str("equation"));
    div_el.children.push(HtmlNode::Text(b.expression.clone()));
    HtmlNode::Element(div_el)
}

/// Render a divider block into a bare `hr` element.
pub fn render_divider_block() -> (r: HtmlNode)
    ensures
        r matches HtmlNode::Element(e) && e.tag@ == "hr"@ && e.props@.len() == 0
            && e.children@.len() == 0,
{
    HtmlNode::Element(HtmlElement::new("hr"))
}

/// Render a table block into a bare `table` element; its rows arrive as
/// child blocks.
pub fn render_table_block(b: &TableBlock) -> (r: HtmlNode)
    ensures
        r matches HtmlNode::Element(e) && e.tag@ == "table"@ && e.children@.len() == 0,
{
    let mut table_el = HtmlElement::new("table");
    let name = String::from_str("class");
    proof {
        reveal_strlit("class");
    }
    table_el.set_prop(name, String::from_str("table"));
    HtmlNode::Element(table_el)
}

/// Render a table row block into a `tr` element with one `td` child per
/// cell.
#[verifier::loop_isolation(false)]
pub fn render_table_row_block(b: &TableRowBlock) -> (r: HtmlNode)
    ensures
        r matches HtmlNode::Element(e) && e.tag@ == "tr"@ && e.children@.len() == b.cells@.len(),
{
    let mut tr_el = HtmlElement::new("tr");
    let name = String::from_str("class");
    proof {
        reveal_strlit("class");
    }
    tr_el.set_prop(name, String::from_str("table-row"));
    let mut i: usize = 0;
    while i < b.cells.len()
        invariant
            i <= b.cells.len(),
            tr_el.children@.len() == i,
            tr_el.tag@ == "tr"@,
        decreases b.cells.len() - i,
    {
        let mut td_el = HtmlElement::new("td");
        td_el.children = render_rich_text_array(&b.cells[i]);
        tr_el.children.push(HtmlNode::Element(td_el));
        i = i + 1;
    }
    HtmlNode::Element(tr_el)
}

/// Render one content block into an HTML node, by its kind.
pub fn render_block(b: &Block) -> (r: HtmlNode)
    ensures
        b.variant is Divider ==> (r matches HtmlNode::Element(e) && e.tag@ == "hr"@),
{
    match &b.variant {
        BlockVariants::Paragraph(para) => render_paragraph_block(para),
        BlockVariants::Heading1(heading) => render_heading_block(heading, 1),
        BlockVariants::Heading2(heading) => render_heading_block(heading, 2),
        BlockVariants::Heading3(heading) => render_heading_block(heading, 3),
        BlockVariants::Callout(callout) => render_callout_block(callout),
        BlockVariants::Quote(quote) => render_quote_block(quote),
        BlockVariants::BulletedListItem(item) => render_list_item_block(item),
        BlockVariants::NumberedListItem(item) => render_list_item_block(item),
        BlockVariants::Code(code) => render_code_block(code),
        BlockVariants::Image(image) => render_image_block(image),
        BlockVariants::Equation(equation) => render_equation_block(equation),
        BlockVariants::Divider => render_divider_block(),
        BlockVariants::Table(table) => render_table_block(table),
        BlockVariants::TableRow(table_row) => render_table_row_block(table_row),
    }
}

/// Render a normalized block tree into an HTML node: the page root becomes
/// a `main` element, lists become `ul` and `ol` elements, and every block
/// is rendered by its kind, with the rendered children below it.
#[verifier::loop_isolation(false)]
pub fn render_block_tree(bt: &BlockTree) -> (r: HtmlNode)
    ensures
        bt.variant is PageRoot ==> (r matches HtmlNode::Element(e) && e.tag@ == "main"@),
        bt.variant is BulletedList ==> (r matches HtmlNode::Element(e) && e.tag@ == "ul"@),
        bt.variant is NumberedList ==> (r matches HtmlNode::Element(e) && e.tag@ == "ol"@),
    decreases *bt,
{
    let mut node = match &bt.variant {
        BlockTreeNodeVariants::PageRoot => HtmlNode::Element(HtmlElement::new("main")),
        BlockTreeNodeVariants::Block(block) => render_block(block),
        BlockTreeNodeVariants::BulletedList => HtmlNode::Element(HtmlElement::new("ul")),
        BlockTreeNodeVariants::NumberedList => HtmlNode::Element(HtmlElement::new("ol")),
    };
    if let HtmlNode::Element(element) = &mut node {
        let ghost tag0 = element.tag;
        let mut i: usize = 0;
        while i < bt.children.len()
            invariant
                i <= bt.children.len(),
                element.tag == tag0,
            decreases bt.children.len() - i,
        {
            let child_node = render_block_tree(&bt.children[i]);
            element.children.push(child_node);
            i = i + 1;
        }
    }
    node
}

} // verus!
