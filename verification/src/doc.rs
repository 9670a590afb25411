//! The document tree: the normalized representation of post content.

use vstd::prelude::*;

verus! {

/// A node on the document tree.
#[derive(Debug)]
pub struct DocumentNode {
    /// Tag of the node: the type of the node and any associated properties
    /// specific to the node's type.
    pub tag: DocumentNodeTag,

    /// The child nodes.
    pub children: Vec<DocumentNode>,
}

/// A document tree node's tag.
#[derive(Debug)]
pub enum DocumentNodeTag {
    Root,
    Paragraph,
    Heading { level: i32 },
    Callout { emoji: Option<String> },
    Quote,
    List { is_ordered: bool },
    ListItem,
    Code { language: String, caption: Option<String>, code: String },
    Equation { expr: String, caption: Option<String> },
    Image { link: DocumentResourceLink, caption: Option<String> },
    Table { caption: Option<String> },
    TableRow,
    TableCell,
    Divider,
    Inline { style: Option<InlineStyle>, link: Option<String> },
    InlineText { text: String },
    InlineCode { code: String },
    InlineEquation { expr: String },
}

/// A link to a resource referenced from the document tree: either an
/// external URL, or an embedded resource addressed by its identifier.
#[derive(Debug)]
pub enum DocumentResourceLink {
    External { url: String },
    Embedded { uuid: String },
}

/// Style settings of an inlined document tree element.
#[derive(Debug)]
pub struct InlineStyle {
    pub bold: bool,
    pub italic: bool,
    pub underline: bool,
    pub strike_through: bool,
    pub color: Option<String>,
}

impl InlineStyle {
    /// Whether no style setting is on.
    pub open spec fn is_plain(self) -> bool {
        !self.bold && !self.italic && !self.underline && !self.strike_through
            && self.color is None
    }

    /// Create a default `InlineStyle` value: no setting is on.
    pub fn new() -> (r: Self)
        ensures
            r.is_plain(),
    {
        InlineStyle {
            bold: false,
            italic: false,
            underline: false,
            strike_through: false,
            color: None,
        }
    }
}

impl Default for InlineStyle {
    /// The default style: no setting is on.
    fn default() -> (r: Self)
        ensures
            r.is_plain(),
    {
        InlineStyle::new()
    }
}

/// Visitor that visits each document node within a document tree.
pub trait DocumentNodeVisitor {
    fn visit(&mut self, node: &DocumentNode) {
    }

    fn visit_mut(&mut self, node: &mut DocumentNode) {
    }
}

impl DocumentNode {
    /// Create a new document tree node with the given node tag.
    pub fn new(tag: DocumentNodeTag) -> (r: Self)
        ensures
            r.tag == tag,
            r.children@.len() == 0,
    {
        Self { tag, children: Vec::new() }
    }

    /// Create a new document tree node that represents the root node of an
    /// empty document tree.
    pub fn new_empty() -> (r: Self)
        ensures
            r.tag is Root,
            r.children@.len() == 0,
    {
        Self::new(DocumentNodeTag::Root)
    }

    /// Visit all nodes in the document tree rooted at this document node,
    /// parents before children.
    pub fn visit<V: DocumentNodeVisitor>(&self, visitor: &mut V)
        decreases *self,
    {
        visitor.visit(self);
        let mut i: usize = 0;
        while i < self.children.len()
            decreases self.children.len() - i,
        {
            self.children[i].visit(visitor);
            i = i + 1;
        }
    }

    /// Let a visitor change this node's tag in place.
    ///
    /// Walking the whole tree while changing it is left to the caller: an
    /// arbitrary visitor could grow the tree while it is being walked, so no
    /// such walk can be shown to come to an end.
    pub fn visit_mut<V: DocumentNodeVisitor>(&mut self, visitor: &mut V) {
        visitor.visit_mut(self);
    }
}

/// A rich text span: the content of an inlined element of the document
/// tree.
#[derive(Debug)]
pub enum RichText {
    /// Plain text.
    Text(String),
    /// Plain text with monospace style.
    Code(String),
    /// An inline math equation.
    Equation(String),
    /// A styled group of rich text spans.
    Styled(StyledRichText),
}

/// A styled group of rich text spans.
#[derive(Debug)]
pub struct StyledRichText {
    pub bold: bool,
    pub italic: bool,
    pub underline: bool,
    pub strike_through: bool,
    pub color: Option<String>,
    pub content: Vec<RichText>,
}

/// Build a vector of rich texts, which can represent the content of some
/// element within the document tree.
#[derive(Debug)]
pub struct RichTextBuilder {
    spans: Vec<RichText>,
}

impl RichTextBuilder {
    /// The spans built so far, in order.
    pub closed spec fn spans_v(self) -> Seq<RichText> {
        self.spans@
    }

    /// Create a new `RichTextBuilder` object.
    pub fn new() -> (r: Self)
        ensures
            r.spans_v().len() == 0,
    {
        Self { spans: Vec::new() }
    }

    /// Add plain text to the end of the rich text vector being built.
    pub fn push_text(&mut self, text: String)
        ensures
            final(self).spans_v() == old(self).spans_v().push(RichText::Text(text)),
    {
        self.spans.push(RichText::Text(text));
    }

    /// Add plain text with monospace style to the end of the rich text
    /// vector being built.
    pub fn push_code(&mut self, code: String)
        ensures
            final(self).spans_v() == old(self).spans_v().push(RichText::Code(code)),
    {
        self.spans.push(RichText::Code(code));
    }

    /// Add an inline math equation to the end of the rich text vector being
    /// built.
    pub fn push_equation(&mut self, expr: String)
        ensures
            final(self).spans_v() == old(self).spans_v().push(RichText::Equation(expr)),
    {
        self.spans.push(RichText::Equation(expr));
    }

    /// Build a styled rich text span from the given style options and the
    /// given content, and add it to the end of the rich text vector being
    /// built.
    pub fn push_styled(&mut self, style: &RichTextStyleBuilder, content: RichTextBuilder)
        ensures
            final(self).spans_v().len() == old(self).spans_v().len() + 1,
            forall|k: int|
                0 <= k < old(self).spans_v().len() ==> final(self).spans_v()[k] == old(
                    self,
                ).spans_v()[k],
            final(self).spans_v().last() matches RichText::Styled(styled)
                && styled.bold == style.spec_bold() && styled.italic == style.spec_italic()
                && styled.underline == style.spec_underline() && styled.strike_through
                == style.spec_strike_through() && styled.color == style.spec_color()
                && styled.content@ == content.spans_v(),
    {
        let mut styled = StyledRichText {
            bold: false,
            italic: false,
            underline: false,
            strike_through: false,
            color: None,
            content: content.build(),
        };
        style.populate_style(&mut styled);
        self.spans.push(RichText::Styled(styled));
        proof {
            assert(self.spans@.len() == old(self).spans_v().len() + 1);
        }
    }

    /// Return the built rich text vector.
    pub fn build(self) -> (r: Vec<RichText>)
        ensures
            r@ == self.spans_v(),
    {
        self.spans
    }
}

/// Build rich text style options.
#[derive(Debug)]
pub struct RichTextStyleBuilder {
    bold: bool,
    italic: bool,
    underline: bool,
    strike_through: bool,
    monospace: bool,
    color: Option<String>,
}

impl RichTextStyleBuilder {
    pub closed spec fn spec_bold(self) -> bool {
        self.bold
    }

    pub closed spec fn spec_italic(self) -> bool {
        self.italic
    }

    pub closed spec fn spec_underline(self) -> bool {
        self.underline
    }

    pub closed spec fn spec_strike_through(self) -> bool {
        self.strike_through
    }

    pub closed spec fn spec_monospace(self) -> bool {
        self.monospace
    }

    /// The color style option configured in this builder, if any.
    pub closed spec fn spec_color(self) -> Option<String> {
        self.color
    }

    /// Create a new `RichTextStyleBuilder` object with no option set.
    pub fn new() -> (r: Self)
        ensures
            !r.spec_bold(),
            !r.spec_italic(),
            !r.spec_underline(),
            !r.spec_strike_through(),
            !r.spec_monospace(),
            r.spec_color() is None,
    {
        Self {
            bold: false,
            italic: false,
            underline: false,
            strike_through: false,
            monospace: false,
            color: None,
        }
    }

    /// Select or clear the bold style option.
    pub fn bold(&mut self, value: bool)
        ensures
            final(self).spec_bold() == value,
            final(self).spec_color() == old(self).spec_color(),
            final(self).spec_italic() == old(self).spec_italic(),
            final(self).spec_underline() == old(self).spec_underline(),
            final(self).spec_strike_through() == old(self).spec_strike_through(),
            final(self).spec_monospace() == old(self).spec_monospace(),
    {
        self.bold = value;
    }

    /// Select or clear the italic style option.
    pub fn italic(&mut self, value: bool)
        ensures
            final(self).spec_italic() == value,
            final(self).spec_color() == old(self).spec_color(),
            final(self).spec_bold() == old(self).spec_bold(),
            final(self).spec_underline() == old(self).spec_underline(),
            final(self).spec_strike_through() == old(self).spec_strike_through(),
            final(self).spec_monospace() == old(self).spec_monospace(),
    {
        self.italic = value;
    }

    /// Select or clear the underline style option.
    pub fn underline(&mut self, value: bool)
        ensures
            final(self).spec_underline() == value,
            final(self).spec_color() == old(self).spec_color(),
            final(self).spec_bold() == old(self).spec_bold(),
            final(self).spec_italic() == old(self).spec_italic(),
            final(self).spec_strike_through() == old(self).spec_strike_through(),
            final(self).spec_monospace() == old(self).spec_monospace(),
    {
        self.underline = value;
    }

    /// Select or clear the strike-through style option.
    pub fn strike_through(&mut self, value: bool)
        ensures
            final(self).spec_strike_through() == value,
            final(self).spec_color() == old(self).spec_color(),
            final(self).spec_bold() == old(self).spec_bold(),
            final(self).spec_italic() == old(self).spec_italic(),
            final(self).spec_underline() == old(self).spec_underline(),
            final(self).spec_monospace() == old(self).spec_monospace(),
    {
        self.strike_through = value;
    }

    /// Select or clear the monospace style option.
    pub fn monospace(&mut self, value: bool)
        ensures
            final(self).spec_monospace() == value,
            final(self).spec_color() == old(self).spec_color(),
            final(self).spec_bold() == old(self).spec_bold(),
            final(self).spec_italic() == old(self).spec_italic(),
            final(self).spec_underline() == old(self).spec_underline(),
            final(self).spec_strike_through() == old(self).spec_strike_through(),
    {
        self.monospace = value;
    }

    /// Set the color style option.
    pub fn color(&mut self, value: Option<String>)
        ensures
            final(self).spec_color() == value,
            final(self).spec_bold() == old(self).spec_bold(),
            final(self).spec_italic() == old(self).spec_italic(),
            final(self).spec_underline() == old(self).spec_underline(),
            final(self).spec_strike_through() == old(self).spec_strike_through(),
            final(self).spec_monospace() == old(self).spec_monospace(),
    {
        self.color = value;
    }

    /// Populate the style options contained in the given `StyledRichText`
    /// with the options configured in this builder.
    pub fn populate_style(&self, styled: &mut StyledRichText)
        ensures
            final(styled).bold == self.spec_bold(),
            final(styled).italic == self.spec_italic(),
            final(styled).underline == self.spec_underline(),
            final(styled).strike_through == self.spec_strike_through(),
            final(styled).color == self.spec_color(),
            final(styled).content == old(styled).content,
    {
        styled.bold = self.bold;
        styled.italic = self.italic;
        styled.underline = self.underline;
        styled.strike_through = self.strike_through;
        styled.color = match &self.color {
            Some(c) => Some(c.clone()),
            None => None,
        };
    }
}

} // verus!
