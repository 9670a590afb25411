//! A small HTML document tree and its serialization.

use vstd::prelude::*;
use vstd::string::StringExecFns;

verus! {

/// What one character of regular HTML text is rendered as: the named entity
/// for `&`, `<` and `>`, and the character itself otherwise.
pub open spec fn escaped_char(c: char) -> Seq<char> {
    if c == '&' {
        seq!['&', 'a', 'm', 'p', ';']
    } else if c == '<' {
        seq!['&', 'l', 't', ';']
    } else if c == '>' {
        seq!['&', 'g', 't', ';']
    } else {
        seq![c]
    }
}

/// Regular HTML text with `&`, `<` and `>` replaced by their named entities.
pub open spec fn escape_text(s: Seq<char>) -> Seq<char>
    decreases s.len(),
{
    if s.len() == 0 {
        Seq::<char>::empty()
    } else {
        escaped_char(s[0]) + escape_text(s.drop_first())
    }
}

/// Relies on html_escape::encode_text: `&`, `<` and `>` are replaced by
/// `&amp;`, `&lt;` and `&gt;`, and every other character is kept.
#[verifier::external_body]
fn encode_text(s: &str) -> (r: String)
    ensures
        r@ == escape_text(s@),
{
    html_escape::encode_text(s).into_owned()
}

/// A node in the HTML document tree.
#[derive(Debug)]
pub enum HtmlNode {
    Text(String),
    Element(HtmlElement),
}

/// An XML-like element in the HTML document tree.
#[derive(Debug)]
pub struct HtmlElement {
    /// The tag name of the element.
    pub tag: &'static str,

    /// The properties of the element, in insertion order.
    pub props: Vec<(String, String)>,

    /// The child nodes of the element.
    pub children: Vec<HtmlNode>,
}

/// The serialized form of an element's properties: a space, the name, `="`,
/// the value and `"`, for each property in order.
pub open spec fn render_props(props: Seq<(Seq<char>, Seq<char>)>) -> Seq<char>
    decreases props.len(),
{
    if props.len() == 0 {
        Seq::<char>::empty()
    } else {
        seq![' '] + props[0].0 + seq!['=', '"'] + props[0].1 + seq!['"'] + render_props(
            props.drop_first(),
        )
    }
}

/// The view of an element's properties.
pub open spec fn props_view(props: Seq<(String, String)>) -> Seq<(Seq<char>, Seq<char>)> {
    props.map_values(|p: (String, String)| (p.0@, p.1@))
}

/// The serialized form of an HTML node: text is escaped, an element is
/// written as its open tag with its properties, its serialized children and
/// its close tag, or self-closing if it has no children.
pub open spec fn render_node(n: HtmlNode) -> Seq<char>
    decreases n,
{
    match n {
        HtmlNode::Text(t) => escape_text(t@),
        HtmlNode::Element(e) => render_element(e),
    }
}

/// The serialized form of an HTML element.
pub open spec fn render_element(e: HtmlElement) -> Seq<char>
    decreases e,
{
    let open = seq!['<'] + e.tag@ + render_props(props_view(e.props@));
    if e.children@.len() == 0 {
        open + seq!['/', '>']
    } else {
        open + seq!['>'] + render_nodes(e.children@) + seq!['<', '/'] + e.tag@ + seq!['>']
    }
}

/// The serialized forms of a sequence of HTML nodes, concatenated.
pub open spec fn render_nodes(ns: Seq<HtmlNode>) -> Seq<char>
    decreases ns,
{
    if ns.len() == 0 {
        Seq::<char>::empty()
    } else {
        render_node(ns[0]) + render_nodes(ns.drop_first())
    }
}

/// Appending one more node to a rendered prefix.
proof fn lemma_render_nodes_push(ns: Seq<HtmlNode>, n: HtmlNode)
    ensures
        render_nodes(ns.push(n)) == render_nodes(ns) + render_node(n),
    decreases ns.len(),
{
    reveal_with_fuel(render_nodes, 3);
    if ns.len() == 0 {
        assert(ns.push(n).drop_first() =~= Seq::<HtmlNode>::empty());
        assert(render_nodes(ns.push(n)) =~= render_nodes(ns) + render_node(n));
    } else {
        assert(ns.push(n)[0] == ns[0]);
        assert(ns.push(n).drop_first() =~= ns.drop_first().push(n));
        lemma_render_nodes_push(ns.drop_first(), n);
        assert(render_nodes(ns.push(n)) =~= render_nodes(ns) + render_node(n));
    }
}

/// Appending one more property to a rendered prefix.
proof fn lemma_render_props_push(ps: Seq<(Seq<char>, Seq<char>)>, p: (Seq<char>, Seq<char>))
    ensures
        render_props(ps.push(p)) == render_props(ps) + (seq![' '] + p.0 + seq!['=', '"'] + p.1
            + seq!['"']),
    decreases ps.len(),
{
    reveal_with_fuel(render_props, 3);
    if ps.len() == 0 {
        assert(ps.push(p).drop_first() =~= Seq::<(Seq<char>, Seq<char>)>::empty());
        assert(render_props(ps.push(p)) =~= render_props(ps) + (seq![' '] + p.0 + seq!['=', '"']
            + p.1 + seq!['"']));
    } else {
        assert(ps.push(p)[0] == ps[0]);
        assert(ps.push(p).drop_first() =~= ps.drop_first().push(p));
        lemma_render_props_push(ps.drop_first(), p);
        assert(render_props(ps.push(p)) =~= render_props(ps) + (seq![' '] + p.0 + seq!['=', '"']
            + p.1 + seq!['"']));
    }
}

impl HtmlNode {
    /// Convert the node itself and all its contents into a string, appended
    /// to `output`.
    pub fn to_html_str(&self, output: &mut String)
        ensures
            final(output)@ == old(output)@ + render_node(*self),
        decreases *self,
    {
        match self {
            HtmlNode::Text(text) => {
                let escaped = encode_text(text.as_str());
                output.append(escaped.as_str());
            },
            HtmlNode::Element(element) => {
                element.to_html_str(output);
            },
        }
    }
}

impl HtmlElement {
    /// Create a new HTML element with the given tag name.
    ///
    /// The new element does not have any properties or children.
    pub fn new(tag: &'static str) -> (r: Self)
        ensures
            r.tag@ == tag@,
            r.props@.len() == 0,
            r.children@.len() == 0,
    {
        Self { tag, props: Vec::new(), children: Vec::new() }
    }

    /// Set a property of the element, appended in insertion order.
    pub fn set_prop(&mut self, name: String, value: String)
        ensures
            final(self).props@ == old(self).props@.push((name, value)),
            final(self).tag == old(self).tag,
            final(self).children == old(self).children,
    {
        self.props.push((name, value));
    }

    /// Convert the element itself and all its contents into a string,
    /// appended to `output`.
    #[verifier::loop_isolation(false)]
    pub fn to_html_str(&self, output: &mut String)
        ensures
            final(output)@ == old(output)@ + render_element(*self),
        decreases *self,
    {
        output.append("<");
        output.append(self.tag);
        let mut i: usize = 0;
        proof {
            reveal_strlit("<");
            assert(props_view(self.props@).take(0) =~= Seq::<(Seq<char>, Seq<char>)>::empty());
            reveal_with_fuel(render_props, 1);
            assert(output@ =~= old(output)@ + seq!['<'] + self.tag@ + render_props(
                props_view(self.props@).take(0),
            ));
        }
        while i < self.props.len()
            invariant
                i <= self.props.len(),
                output@ == old(output)@ + seq!['<'] + self.tag@ + render_props(
                    props_view(self.props@).take(i as int),
                ),
            decreases self.props.len() - i,
        {
            output.append(" ");
            output.append(self.props[i].0.as_str());
            output.append("=\"");
            output.append(self.props[i].1.as_str());
            output.append("\"");
            proof {
                reveal_strlit(" ");
                reveal_strlit("=\"");
                reveal_strlit("\"");
                lemma_render_props_push(
                    props_view(self.props@).take(i as int),
                    props_view(self.props@)[i as int],
                );
                assert(props_view(self.props@).take(i + 1) =~= props_view(self.props@).take(
                    i as int,
                ).push(props_view(self.props@)[i as int]));
                assert(output@ =~= old(output)@ + seq!['<'] + self.tag@ + render_props(
                    props_view(self.props@).take(i + 1),
                ));
            }
            i = i + 1;
        }
        proof {
            assert(props_view(self.props@).take(props_view(self.props@).len() as int)
                =~= props_view(self.props@));
        }

        if self.children.len() == 0 {
            output.append("/>");
            proof {
                reveal_strlit("/>");
                assert(output@ =~= old(output)@ + render_element(*self));
            }
            return ;
        }

        output.append(">");
        let ghost mid = output@;
        proof {
            reveal_strlit(">");
            reveal_with_fuel(render_nodes, 1);
            assert(output@ =~= mid + render_nodes(self.children@.take(0)));
        }
        let mut j: usize = 0;
        while j < self.children.len()
            invariant
                j <= self.children.len(),
                output@ == mid + render_nodes(self.children@.take(j as int)),
            decreases self.children.len() - j,
        {
            self.children[j].to_html_str(output);
            proof {
                lemma_render_nodes_push(
                    self.children@.take(j as int),
                    self.children@[j as int],
                );
                assert(self.children@.take(j + 1) =~= self.children@.take(j as int).push(
                    self.children@[j as int],
                ));
            }
            j = j + 1;
        }
        proof {
            assert(self.children@.take(self.children@.len() as int) =~= self.children@);
        }
        output.append("</");
        output.append(self.tag);
        output.append(">");
        proof {
            reveal_strlit("</");
            reveal_strlit(">");
            assert(output@ =~= old(output)@ + render_element(*self));
        }
    }
}

/// Get the CSS class name corresponding to the given source color name:
/// `color-` followed by the name with every underscore replaced by a dash.
pub open spec fn color_style(color: Seq<char>) -> Seq<char>
    decreases color.len(),
{
    if color.len() == 0 {
        Seq::<char>::empty()
    } else {
        seq![if color[0] == '_' {
            '-'
        } else {
            color[0]
        }] + color_style(color.drop_first())
    }
}

/// Get the CSS class name corresponding to the given color.
#[verifier::loop_isolation(false)]
pub fn get_color_style(color: &str) -> (r: String)
    ensures
        r@ == seq!['c', 'o', 'l', 'o', 'r', '-'] + color_style(color@),
{
    let mut out = String::from_str("color-");
    proof {
        reveal_strlit("color-");
        assert(out@ =~= seq!['c', 'o', 'l', 'o', 'r', '-']);
    }
    let bytes = color.as_bytes();
    let ghost cs = color@;
    let mut i: usize = 0;
    let mut acc = String::new();
    proof {
        reveal_with_fuel(color_style, 1);
        assert(acc@ =~= color_style(cs.take(0)));
    }
    // The transformation maps each character independently; iterate over the
    // characters of the source name.
    let chars: Vec<char> = collect_chars(color);
    while i < chars.len()
        invariant
            i <= chars.len(),
            chars@ == cs,
            acc@ == color_style(cs.take(i as int)),
        decreases chars.len() - i,
    {
        let c = chars[i];
        if c == '_' {
            acc.append("-");
            proof {
                reveal_strlit("-");
            }
        } else {
            push_char(&mut acc, c);
        }
        proof {
            lemma_color_style_push(cs.take(i as int), cs[i as int]);
            assert(cs.take(i + 1) =~= cs.take(i as int).push(cs[i as int]));
            assert(acc@ =~= color_style(cs.take(i + 1)));
        }
        i = i + 1;
    }
    proof {
        assert(cs.take(cs.len() as int) =~= cs);
    }
    out.append(acc.as_str());
    out
}

/// Mapping one more character.
proof fn lemma_color_style_push(s: Seq<char>, c: char)
    ensures
        color_style(s.push(c)) == color_style(s) + seq![if c == '_' {
            '-'
        } else {
            c
        }],
    decreases s.len(),
{
    reveal_with_fuel(color_style, 3);
    if s.len() == 0 {
        assert(s.push(c).drop_first() =~= Seq::<char>::empty());
        assert(color_style(s.push(c)) =~= color_style(s) + seq![if c == '_' {
            '-'
        } else {
            c
        }]);
    } else {
        assert(s.push(c)[0] == s[0]);
        assert(s.push(c).drop_first() =~= s.drop_first().push(c));
        lemma_color_style_push(s.drop_first(), c);
        assert(color_style(s.push(c)) =~= color_style(s) + seq![if c == '_' {
            '-'
        } else {
            c
        }]);
    }
}

/// Relies on str::chars: it yields the characters of the string, in order.
#[verifier::external_body]
fn collect_chars(s: &str) -> (r: Vec<char>)
    ensures
        r@ == s@,
{
    s.chars().collect()
}

/// Relies on String::push: it appends one character to the string.
#[verifier::external_body]
fn push_char(s: &mut String, c: char)
    ensures
        final(s)@ == old(s)@.push(c),
{
    s.push(c);
}

} // verus!
