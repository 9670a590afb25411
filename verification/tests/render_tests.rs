use ublog::html::get_color_style;
use ublog::html::HtmlElement;
use ublog::html::HtmlNode;
use ublog::notion::RichTextAnnotations;
use ublog::notion::BlockVariants;
use ublog::render::create_inline_element;
use ublog::render::set_rich_text_annotation_styles;

#[test]
fn test_render_html_text_node() {
    let node = HtmlNode::Text(String::from("hello"));

    let mut rendered = String::new();
    node.to_html_str(&mut rendered);

    assert_eq!(rendered, "hello");
}

#[test]
fn test_render_html_element_no_children() {
    let mut el = HtmlElement::new("hr");
    el.set_prop(String::from("class"), String::from("divider"));

    let mut rendered = String::new();
    el.to_html_str(&mut rendered);

    assert_eq!(rendered, r#"<hr class="divider"/>"#);
}

#[test]
fn test_render_html_element_with_children() {
    let mut el = HtmlElement::new("div");
    el.set_prop(String::from("class"), String::from("paragraph"));

    let mut span_el_1 = HtmlElement::new("span");
    span_el_1.children.push(HtmlNode::Text(String::from("hello")));
    el.children.push(HtmlNode::Element(span_el_1));

    let mut span_el_2 = HtmlElement::new("span");
    span_el_2.children.push(HtmlNode::Text(String::from("world")));
    el.children.push(HtmlNode::Element(span_el_2));

    let mut rendered = String::new();
    el.to_html_str(&mut rendered);

    assert_eq!(
        rendered,
        r#"<div class="paragraph"><span>hello</span><span>world</span></div>"#
    );
}

#[test]
fn test_render_html_text_node_escapes() {
    let node = HtmlNode::Text(String::from("a<b & c>d"));

    let mut rendered = String::new();
    node.to_html_str(&mut rendered);

    assert_eq!(rendered, "a&lt;b &amp; c&gt;d");
}

#[test]
fn test_get_color_style() {
    assert_eq!("color-gray-background", get_color_style("gray_background"));
}

#[test]
fn test_set_rich_text_annotation_styles() {
    let mut node = create_inline_element("span", String::from(""));
    let annot = RichTextAnnotations {
        bold: true,
        italic: true,
        strikethrough: true,
        underline: true,
        code: false,
        color: String::from("gray_background"),
    };

    set_rich_text_annotation_styles(&mut node, &annot);

    let class = node
        .props
        .iter()
        .find(|p| p.0 == "class")
        .map(|p| p.1.clone())
        .unwrap();
    assert_eq!(class, "color-gray-background bold italic strikethrough underline");
}

fn make_annotations(code: bool) -> RichTextAnnotations {
    RichTextAnnotations {
        bold: false,
        italic: false,
        strikethrough: false,
        underline: false,
        code,
        color: String::from("default"),
    }
}

fn make_text_rich_text(content: &str, code: bool) -> ublog::notion::RichText {
    ublog::notion::RichText {
        plain_text: String::from(content),
        href: None,
        annotations: make_annotations(code),
        variants: ublog::notion::RichTextVariants::Text(ublog::notion::TextRichText {
            content: String::from(content),
            link: None,
        }),
    }
}

#[test]
fn test_render_rich_text_code_flag_picks_element() {
    let plain = ublog::render::render_rich_text(&make_text_rich_text("x", true));
    match plain {
        HtmlNode::Element(e) => {
            assert_eq!(e.tag, "span");
            assert_eq!(e.props.len(), 1);
            assert_eq!(e.props[0].0, "class");
            assert_eq!(e.children.len(), 1);
            match &e.children[0] {
                HtmlNode::Text(t) => assert_eq!(t, "x"),
                _ => panic!("expected a text child"),
            }
        }
        _ => panic!("expected an element"),
    }
    let mono = ublog::render::render_rich_text(&make_text_rich_text("y", false));
    match mono {
        HtmlNode::Element(e) => {
            assert_eq!(e.tag, "code");
        }
        _ => panic!("expected an element"),
    }
}

#[test]
fn test_render_rich_text_array_in_order() {
    let spans = vec![make_text_rich_text("a", true), make_text_rich_text("b", false)];
    let nodes = ublog::render::render_rich_text_array(&spans);
    assert_eq!(nodes.len(), 2);
    match &nodes[0] {
        HtmlNode::Element(e) => match &e.children[0] {
            HtmlNode::Text(t) => assert_eq!(t, "a"),
            _ => panic!("expected a text child"),
        },
        _ => panic!("expected an element"),
    }
    match &nodes[1] {
        HtmlNode::Element(e) => {
            assert_eq!(e.tag, "code");
            match &e.children[0] {
                HtmlNode::Text(t) => assert_eq!(t, "b"),
                _ => panic!("expected a text child"),
            }
        }
        _ => panic!("expected an element"),
    }
}

fn raw_block(id: &str, variant: ublog::notion::BlockVariants) -> ublog::block_tree::RawBlockTree {
    ublog::block_tree::RawBlockTree::new(ublog::notion::Block {
        id: String::from(id),
        created_time: String::new(),
        last_edited_time: String::new(),
        archived: false,
        has_children: false,
        variant,
    })
}

fn list_item() -> ublog::notion::ListItemBlock {
    ublog::notion::ListItemBlock {
        rich_text: Vec::new(),
        color: String::from("default"),
    }
}

#[test]
fn test_normalize_groups_adjacent_list_items() {
    let mut first_bullet = raw_block("b", BlockVariants::BulletedListItem(list_item()));
    first_bullet
        .children
        .push(raw_block("b1", BlockVariants::Divider));
    let raws = vec![
        raw_block("a", BlockVariants::Divider),
        first_bullet,
        raw_block("c", BlockVariants::BulletedListItem(list_item())),
        raw_block("d", BlockVariants::NumberedListItem(list_item())),
        raw_block("e", BlockVariants::Divider),
    ];
    let tree = ublog::block_tree::normalize(raws);
    assert!(matches!(
        tree.variant,
        ublog::block_tree::BlockTreeNodeVariants::PageRoot
    ));
    assert_eq!(tree.children.len(), 4);
    match &tree.children[0].variant {
        ublog::block_tree::BlockTreeNodeVariants::Block(b) => assert_eq!(b.id, "a"),
        _ => panic!("expected a block node"),
    }
    assert!(matches!(
        tree.children[1].variant,
        ublog::block_tree::BlockTreeNodeVariants::BulletedList
    ));
    assert_eq!(tree.children[1].children.len(), 2);
    match &tree.children[1].children[0].variant {
        ublog::block_tree::BlockTreeNodeVariants::Block(b) => assert_eq!(b.id, "b"),
        _ => panic!("expected a block node"),
    }
    assert_eq!(tree.children[1].children[0].children.len(), 1);
    match &tree.children[1].children[0].children[0].variant {
        ublog::block_tree::BlockTreeNodeVariants::Block(b) => assert_eq!(b.id, "b1"),
        _ => panic!("expected a block node"),
    }
    match &tree.children[1].children[1].variant {
        ublog::block_tree::BlockTreeNodeVariants::Block(b) => assert_eq!(b.id, "c"),
        _ => panic!("expected a block node"),
    }
    assert!(matches!(
        tree.children[2].variant,
        ublog::block_tree::BlockTreeNodeVariants::NumberedList
    ));
    assert_eq!(tree.children[2].children.len(), 1);
    match &tree.children[2].children[0].variant {
        ublog::block_tree::BlockTreeNodeVariants::Block(b) => assert_eq!(b.id, "d"),
        _ => panic!("expected a block node"),
    }
    match &tree.children[3].variant {
        ublog::block_tree::BlockTreeNodeVariants::Block(b) => assert_eq!(b.id, "e"),
        _ => panic!("expected a block node"),
    }
}

#[test]
fn test_query_posts_db_params_filter_and_sort() {
    let params = ublog::notion::get_query_posts_db_params();
    match params.filter {
        Some(ublog::notion::QueryDatabaseFilter::Property(p)) => {
            assert_eq!(p.property, "published");
            match p.variant {
                ublog::notion::QueryDatabasePropertyFilterVariants::Checkbox(
                    ublog::notion::QueryDatabaseCheckboxFilter::Equals(b),
                ) => assert!(b),
                _ => panic!("expected a checked-checkbox condition"),
            }
        }
        _ => panic!("expected a property filter"),
    }
    assert_eq!(params.sorts.len(), 1);
    assert_eq!(params.sorts[0].property, "create_date");
    assert_eq!(params.sorts[0].direction, "descending");
}

#[test]
fn test_push_styled_carries_color() {
    let mut style = ublog::doc::RichTextStyleBuilder::new();
    style.bold(true);
    style.color(Some(String::from("red")));
    let mut content = ublog::doc::RichTextBuilder::new();
    content.push_text(String::from("t"));
    let mut builder = ublog::doc::RichTextBuilder::new();
    builder.push_styled(&style, content);
    let spans = builder.build();
    assert_eq!(spans.len(), 1);
    match &spans[0] {
        ublog::doc::RichText::Styled(styled) => {
            assert!(styled.bold);
            assert!(!styled.italic);
            assert_eq!(styled.color.as_deref(), Some("red"));
            assert_eq!(styled.content.len(), 1);
        }
        _ => panic!("expected a styled span"),
    }
}
