//! Tests of the indexing pass against real rendered markdown: the tree
//! comes from markdown-it, is modeled, run through the library's pass, and
//! the annotations are applied back before rendering.

use crabix::annotate::AnnotatedNode;
use crabix::annotate::DocNode;
use crabix::annotate::NodePayload;
use crabix::annotate::SyntaxPosRule;
use crabix::lines::span_from_offsets;
use markdown_it::plugins::extra::syntect::SyntectSnippet;
use markdown_it::plugins::html::html_block::HtmlBlock;
use markdown_it::MarkdownIt;
use markdown_it::Node;

fn engine() -> MarkdownIt {
    let mut parser = MarkdownIt::new();
    markdown_it::plugins::cmark::add(&mut parser);
    markdown_it::plugins::html::add(&mut parser);
    markdown_it::plugins::extra::add(&mut parser);
    parser
}

fn node_model(node: &Node, depth: u32, src_bytes: &Vec<u8>) -> DocNode {
    let span = node.srcmap.and_then(|map| {
        let (start, end) = map.get_byte_offsets();
        span_from_offsets(src_bytes, start, end)
    });
    let payload = if depth == 0 {
        NodePayload::Root
    } else if node.name() == "markdown_it::parser::inline::builtin::skip_text::Text" {
        NodePayload::Text
    } else if let Some(ss) = node.cast::<SyntectSnippet>() {
        NodePayload::CodeFragment {
            html: ss.html.clone(),
        }
    } else if let Some(hb) = node.cast::<HtmlBlock>() {
        NodePayload::RawMarkup {
            content: hb.content.clone(),
        }
    } else {
        NodePayload::Block
    };
    DocNode { payload, span }
}

fn apply_annotation(node: &mut Node, a: &AnnotatedNode) {
    match &a.payload {
        NodePayload::CodeFragment { html } => {
            if node.is::<SyntectSnippet>() {
                node.replace(SyntectSnippet { html: html.clone() });
            }
        }
        NodePayload::RawMarkup { content } => {
            if node.is::<HtmlBlock>() {
                node.replace(HtmlBlock {
                    content: content.clone(),
                });
            }
        }
        _ => {}
    }
    if let Some(v) = &a.attr {
        node.attrs.push(("data-spos", v.clone()));
    }
}

fn render_annotated(src: &str) -> String {
    let mut ast = engine().parse(src);
    let src_bytes = src.as_bytes().to_vec();
    let mut model: Vec<DocNode> = vec![];
    ast.walk(|node, depth| model.push(node_model(node, depth, &src_bytes)));
    let (annotated, _ext) = SyntaxPosRule::run(&model).unwrap();
    let mut i = 0usize;
    ast.walk_mut(|node, _| {
        apply_annotation(node, &annotated[i]);
        i += 1;
    });
    ast.render()
}

#[test]
fn header_test() {
    let html = render_annotated("# hello");
    assert_eq!(html.trim(), r#"<h1 data-spos="1-1">hello</h1>"#);
}

#[test]
fn pre_block_test() {
    let html = render_annotated(
        r#"```rust
    fn app(cx: Scope) -> Element {}
```"#,
    );
    assert!(html.starts_with("<pre data-spos=\"1-3\" "));
}

#[test]
fn html_component_in_markdown() {
    let html = render_annotated(
        r#"
<!--This is a comment. Comments are not displayed in the browser-->   
<p align = "left">
Metus sapien molestie cursus sollicitudin vivamus dignissim condimentum pretium velit.
</p>
<!--This is a comment. Comments are not displayed in the browser-->   
"#,
    );
    assert!(html.starts_with(
        r#"<!--This is a comment. Comments are not displayed in the browser-->   
<p data-spos="3-6" align = "left">
Metus sapien molestie cursus sollicitudin vivamus dignissim condimentum pretium velit.
</p>
<!--This is a comment. Comments are not displayed in the browser-->   
"#
    ));
}

#[test]
fn html_component_with_space() {
    let html = render_annotated(
        r#"<!--This is a comment. Comments are not displayed in the browser-->   
<p align = "left">
Metus sapien molestie cursus sollicitudin vivamus dignissim condimentum pretium velit.

</p>
<!--This is a comment. Comments are not displayed in the browser-->   
"#,
    );
    assert_eq!(
        html,
        r#"<!--This is a comment. Comments are not displayed in the browser-->   
<p data-spos="2-3" align = "left">
Metus sapien molestie cursus sollicitudin vivamus dignissim condimentum pretium velit.
</p>
<!--This is a comment. Comments are not displayed in the browser-->   
"#
    );
}

#[test]
fn html_component_with_space2() {
    let html = render_annotated(
        r#"
<p align = "left">
Metus sapien molestie cursus sollicitudin vivamus dignissim condimentum pretium velit.

</p>
<p align = "left">
Metus sapien molestie cursus sollicitudin vivamus dignissim condimentum pretium velit.
</p>

# Some text
"#,
    );
    assert_eq!(
        html,
        r#"<p data-spos="2-3" align = "left">
Metus sapien molestie cursus sollicitudin vivamus dignissim condimentum pretium velit.
</p>
<p align = "left">
Metus sapien molestie cursus sollicitudin vivamus dignissim condimentum pretium velit.
</p>
<h1 data-spos="10-10">Some text</h1>
"#
    );
}

#[test]
fn html_component_with_space3() {
    let html = render_annotated(
        r#"
  <a href="https://github.com/jkelleyrtp/dioxus/actions">
    <img src="https://github.com/dioxuslabs/dioxus/actions/workflows/main.yml/badge.svg"
      alt="CI status" />
  </a>

  <!--Awesome -->
  <a href="https://github.com/dioxuslabs/awesome-dioxus">
    <img src="https://cdn.rawgit.com/sindresorhus/awesome/d7305f38d29fed78fa85652e3a63e154dd8e8829/media/badge.svg" alt="Awesome Page" />
  </a>
"#,
    );
    assert_eq!(
        html,
        r#"  <a data-spos="2-5" href="https://github.com/jkelleyrtp/dioxus/actions">
    <img src="https://github.com/dioxuslabs/dioxus/actions/workflows/main.yml/badge.svg"
      alt="CI status" />
  </a>
  <!--Awesome -->
  <a data-spos="8-10" href="https://github.com/dioxuslabs/awesome-dioxus">
    <img src="https://cdn.rawgit.com/sindresorhus/awesome/d7305f38d29fed78fa85652e3a63e154dd8e8829/media/badge.svg" alt="Awesome Page" />
  </a>
"#
    );
}
