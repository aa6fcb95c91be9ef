use hearth_text::block::{BlockNode, Paragraph};
use hearth_text::document::ParsedBlock;
use hearth_text::html_convert::{convert_html_node, convert_html_paragraph};
use hearth_text::node::{InlineNode, LinkMark, TextMark};
use hearth_text::renderer::{HtmlSourceAllocator, TextBlockKind};

fn text_node(text: &str, marks: Vec<(std::ops::Range<usize>, TextMark)>) -> InlineNode {
    InlineNode { text: text.to_string(), image: None, marks, source_range: None }
}

fn paragraph(nodes: Vec<InlineNode>) -> Paragraph {
    Paragraph { span: None, children: nodes }
}

#[test]
fn html_paragraph_splits_runs_at_mark_boundaries() {
    let source = "<p>A <b>bold</b> link</p>";
    let mut allocator = HtmlSourceAllocator::new(source, 0..source.len());
    let link = TextMark { link: Some(LinkMark { url: "https://example.com".into(), ..Default::default() }), ..Default::default() };
    let p = paragraph(vec![text_node("A bold link", vec![(2..6, TextMark::default().bold()), (7..11, link)])]);
    let block = convert_html_paragraph(&p, TextBlockKind::Paragraph, None, &mut allocator).expect("a block");
    let texts: Vec<&str> = block.segments.iter().map(|s| s.text.as_str()).collect();
    assert_eq!(texts, vec!["A ", "bold", " ", "link"]);
    assert!(block.segments[1].flags.strong);
    assert!(!block.segments[0].flags.strong);
    assert!(block.segments[3].flags.link);
    assert_eq!(block.segments[1].source, 2..6);
    assert_eq!(block.links.len(), 1);
    assert_eq!(block.links[0].source, 7..11);
    assert_eq!(block.links[0].destination, "https://example.com");
    assert_eq!(block.source, 0..11);
    assert_eq!(allocator.next(), 11);
}

#[test]
fn empty_html_paragraph_makes_no_block() {
    let source = "<p></p>";
    let mut allocator = HtmlSourceAllocator::new(source, 0..source.len());
    let p = paragraph(vec![text_node("", vec![])]);
    assert!(convert_html_paragraph(&p, TextBlockKind::Paragraph, None, &mut allocator).is_none());
    assert_eq!(allocator.next(), 0);
}

#[test]
fn html_ordered_list_numbers_items_from_its_start() {
    let source = "<ol start=\"3\"><li>third</li><li>fourth</li></ol>";
    let mut allocator = HtmlSourceAllocator::new(source, 0..source.len());
    let item = |text: &str| BlockNode::ListItem {
        children: vec![BlockNode::Paragraph(paragraph(vec![text_node(text, vec![])]))],
        spread: false,
        checked: None,
        span: None,
    };
    let list = BlockNode::List { children: vec![item("third"), item("fourth")], ordered: true, start: Some(3), span: None };
    let mut blocks = Vec::new();
    convert_html_node(&list, None, 1, &mut allocator, &mut blocks);
    assert_eq!(blocks.len(), 2);
    let texts: Vec<String> = blocks
        .iter()
        .map(|block| match block {
            ParsedBlock::Text(block) => {
                assert_eq!(block.kind, TextBlockKind::ListItem { depth: 1 });
                block.segments.iter().map(|s| s.text.as_str()).collect()
            }
            _ => panic!("expected list item text"),
        })
        .collect();
    assert_eq!(texts, vec!["3. third", "4. fourth"]);
}

#[test]
fn html_rule_and_break_take_one_source_byte() {
    let source = "<hr><br>";
    let mut allocator = HtmlSourceAllocator::new(source, 0..source.len());
    let root = BlockNode::Root {
        children: vec![BlockNode::HorizontalRule { span: None }, BlockNode::Break { html: true, span: None }],
        span: None,
    };
    let mut blocks = Vec::new();
    convert_html_node(&root, None, 0, &mut allocator, &mut blocks);
    assert_eq!(blocks.len(), 2);
    assert!(matches!(blocks[0], ParsedBlock::Rule(ref range) if *range == (0..1)));
    match &blocks[1] {
        ParsedBlock::Text(block) => {
            assert_eq!(block.segments[0].text, "\n");
            assert_eq!(block.source, 1..2);
        }
        _ => panic!("expected a break block"),
    }
}
