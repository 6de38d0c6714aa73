//! Annotation of rendered markup with source-position identifiers.
//!
//! Each eligible document node is marked with an identifier of the shape
//! `start-end` naming its source line range, so the presentation layer can
//! address the rendered element for a given range. Generic nodes take the
//! identifier as an attribute; pre-escaped code fragments and raw markup
//! blocks have it spliced into the text of their opening tag.

use vstd::prelude::*;
use vstd::string::StrSliceExecFns;
use vstd::string::StringExecFns;

use crate::decimal::dec_chars;
use crate::decimal::push_dec;
use crate::spos::Spos;

verus! {

/// The failure that aborts an index build: a pre-escaped code fragment
/// whose markup does not open with the expected tag, so the identifier
/// cannot be spliced in safely.
#[derive(Debug, Clone, Copy, PartialEq, Eq, Structural)]
pub enum IndexError {
    MalformedCodeFragment,
}

/// The identifier naming a line range: `start-end` in decimal.
pub open spec fn spec_selector(sp: Spos) -> Seq<char> {
    dec_chars(sp.start_line as nat) + "-"@ + dec_chars(sp.end_line as nat)
}

/// The identifier for a range, e.g. `1-3` for lines one through three.
pub fn selector_string(sp: Spos) -> (r: String)
    ensures
        r@ == spec_selector(sp),
{
    let mut out = String::new();
    push_dec(&mut out, sp.start_line);
    out.append("-");
    push_dec(&mut out, sp.end_line);
    proof {
        assert(out@ =~= spec_selector(sp));
    }
    out
}

/// The opening-tag shape a pre-escaped code fragment must have.
pub open spec fn pre_tag_prefix() -> Seq<char> {
    seq!['<', 'p', 'r', 'e', ' ']
}

/// A code fragment can take a spliced identifier: it opens with `<pre `.
pub open spec fn code_fragment_ok(html: Seq<char>) -> bool {
    html.len() >= 5 && html.take(5) == pre_tag_prefix()
}

/// The attribute text spliced into a code fragment's opening tag.
pub open spec fn code_attr(sp: Spos) -> Seq<char> {
    "data-spos=\""@ + spec_selector(sp) + "\" "@
}

/// A code fragment with the identifier spliced in just after `<pre `;
/// everything else of the fragment is unchanged.
pub open spec fn spliced_code(html: Seq<char>, sp: Spos) -> Seq<char> {
    html.take(5) + code_attr(sp) + html.skip(5)
}

/// Splices the range identifier into the opening tag of a pre-escaped code
/// fragment. A fragment that does not open with `<pre ` cannot be spliced
/// safely: that is the fatal indexing error.
pub fn splice_code_fragment(html: &str, sp: Spos) -> (r: Result<String, IndexError>)
    ensures
        r is Ok <==> code_fragment_ok(html@),
        r matches Ok(out) ==> out@ == spliced_code(html@, sp),
        r is Err ==> r == Result::<String, IndexError>::Err(IndexError::MalformedCodeFragment),
{
    let n = html.unicode_len();
    if n < 5 {
        return Result::Err(IndexError::MalformedCodeFragment);
    }
    if !(html.get_char(0) == '<' && html.get_char(1) == 'p' && html.get_char(2) == 'r'
        && html.get_char(3) == 'e' && html.get_char(4) == ' ') {
        proof {
            assert(html@.take(5) != pre_tag_prefix()) by {
                if html@.take(5) == pre_tag_prefix() {
                    assert(html@.take(5)[0] == '<');
                    assert(html@.take(5)[1] == 'p');
                    assert(html@.take(5)[2] == 'r');
                    assert(html@.take(5)[3] == 'e');
                    assert(html@.take(5)[4] == ' ');
                }
            }
        }
        return Result::Err(IndexError::MalformedCodeFragment);
    }
    proof {
        assert(html@.take(5) =~= pre_tag_prefix());
    }
    let mut out = String::from_str(html.substring_char(0, 5));
    out.append("data-spos=\"");
    push_dec(&mut out, sp.start_line);
    out.append("-");
    push_dec(&mut out, sp.end_line);
    out.append("\" ");
    out.append(html.substring_char(5, n));
    proof {
        assert(out@ =~= spliced_code(html@, sp));
    }
    Result::Ok(out)
}

/// A character that may stand in a tag name: an ASCII letter.
pub open spec fn is_tag_char(c: char) -> bool {
    let v = c as u32;
    (97 <= v && v <= 122) || (65 <= v && v <= 90)
}

fn is_tag_char_exec(c: char) -> (r: bool)
    ensures
        r == is_tag_char(c),
{
    let v = c as u32;
    (97 <= v && v <= 122) || (65 <= v && v <= 90)
}

/// How many characters precede the first `<`, or the whole length when
/// there is none.
pub open spec fn lt_scan(s: Seq<char>) -> nat
    decreases s.len(),
{
    if s.len() == 0 || s[0] == '<' {
        0
    } else {
        1 + lt_scan(s.drop_first())
    }
}

/// The length of the leading run of tag-name characters.
pub open spec fn tag_run(s: Seq<char>) -> nat
    decreases s.len(),
{
    if s.len() == 0 || !is_tag_char(s[0]) {
        0
    } else {
        1 + tag_run(s.drop_first())
    }
}

proof fn lemma_lt_scan_at(s: Seq<char>, k: int)
    requires
        0 <= k <= s.len(),
        forall|j: int| 0 <= j < k ==> s[j] != '<',
        k < s.len() ==> s[k] == '<',
    ensures
        lt_scan(s) == k,
    decreases s.len(),
{
    if s.len() == 0 || k == 0 {
    } else {
        assert(forall|j: int| 0 <= j < s.drop_first().len() ==> s.drop_first()[j] == s[j + 1]);
        lemma_lt_scan_at(s.drop_first(), k - 1);
    }
}

proof fn lemma_tag_run_at(s: Seq<char>, k: int)
    requires
        0 <= k <= s.len(),
        forall|j: int| 0 <= j < k ==> is_tag_char(s[j]),
        k < s.len() ==> !is_tag_char(s[k]),
    ensures
        tag_run(s) == k,
    decreases s.len(),
{
    if s.len() == 0 || k == 0 {
    } else {
        assert(forall|j: int| 0 <= j < s.drop_first().len() ==> s.drop_first()[j] == s[j + 1]);
        lemma_tag_run_at(s.drop_first(), k - 1);
    }
}

/// A raw markup block takes an identifier only when, after any characters
/// before the first `<`, a genuine opening tag follows: the character after
/// `<` is a letter.
pub open spec fn markup_annotatable(c: Seq<char>) -> bool {
    let t = lt_scan(c) as int;
    t + 1 < c.len() && is_tag_char(c[t + 1])
}

/// The attribute text spliced after a raw markup block's tag name.
pub open spec fn markup_attr(sp: Spos) -> Seq<char> {
    " data-spos=\""@ + spec_selector(sp) + "\""@
}

/// A raw markup block with the identifier spliced in right after its
/// opening tag name; everything else of the block is unchanged.
pub open spec fn annotated_markup(c: Seq<char>, sp: Spos) -> Seq<char> {
    let t = lt_scan(c) as int;
    let cut = t + 1 + tag_run(c.skip(t + 1));
    c.take(cut) + markup_attr(sp) + c.skip(cut)
}

/// Splices the range identifier into a raw markup block's opening tag, or
/// leaves the block alone when its content has no annotatable tag shape.
/// That no-op is not an error: such a block simply stays unindexed.
pub fn annotate_raw_markup(content: &str, sp: Spos) -> (r: Option<String>)
    ensures
        r is Some <==> markup_annotatable(content@),
        r matches Some(out) ==> out@ == annotated_markup(content@, sp),
{
    let n = content.unicode_len();
    let mut t: usize = 0;
    while t < n && content.get_char(t) != '<'
        invariant
            t <= n == content@.len(),
            forall|j: int| 0 <= j < t ==> content@[j] != '<',
        decreases n - t,
    {
        t = t + 1;
    }
    proof {
        lemma_lt_scan_at(content@, t as int);
    }
    if n - t < 2 {
        return Option::None;
    }
    if !is_tag_char_exec(content.get_char(t + 1)) {
        return Option::None;
    }
    let mut j: usize = t + 1;
    while j < n && is_tag_char_exec(content.get_char(j))
        invariant
            t + 1 <= j <= n == content@.len(),
            forall|i: int| t + 1 <= i < j ==> is_tag_char(content@[i]),
        decreases n - j,
    {
        j = j + 1;
    }
    proof {
        let rest = content@.skip(t as int + 1);
        assert(forall|i: int| 0 <= i < rest.len() ==> rest[i] == content@[t + 1 + i]);
        lemma_tag_run_at(rest, j - t - 1);
    }
    let mut out = String::from_str(content.substring_char(0, j));
    out.append(" data-spos=\"");
    push_dec(&mut out, sp.start_line);
    out.append("-");
    push_dec(&mut out, sp.end_line);
    out.append("\"");
    out.append(content.substring_char(j, n));
    proof {
        assert(out@ =~= annotated_markup(content@, sp));
    }
    Option::Some(out)
}

/// The payload of one parsed document node, as a closed tagged type.
#[derive(Debug, Clone)]
pub enum NodePayload {
    /// The document root. Never annotated: its position is trivially the
    /// whole document.
    Root,
    /// A pure-text inline leaf. Never annotated: it always sits inside a
    /// parent block and would only duplicate that parent's range.
    Text,
    /// A fenced code block rendered as a pre-escaped markup fragment.
    CodeFragment { html: String },
    /// A raw embedded markup block.
    RawMarkup { content: String },
    /// Any other node: headings, paragraphs, lists and the rest.
    Block,
}

/// One node of the parsed tree, in tree-walk order, with the source span
/// the parser attributed to it.
#[derive(Debug, Clone)]
pub struct DocNode {
    pub payload: NodePayload,
    pub span: Option<Spos>,
}

/// A node after indexing: its payload, rewritten where an identifier was
/// spliced into markup text, and the identifying attribute value for a
/// generically annotated node.
#[derive(Debug, Clone)]
pub struct AnnotatedNode {
    pub payload: NodePayload,
    pub attr: Option<String>,
}

/// The index over one parse: the ranges of all annotated nodes, one entry
/// each, in tree-walk order.
#[derive(Debug, Clone)]
pub struct SposesExt {
    pub sposes: Vec<Spos>,
}

/// Indexing a node fails fatally exactly when it is a code fragment with a
/// span whose markup does not open with the spliceable tag shape.
pub open spec fn node_fails(n: DocNode) -> bool {
    &&& n.span is Some
    &&& n.payload matches NodePayload::CodeFragment { html } && !code_fragment_ok(html@)
}

/// The index entry a node contributes: its span, when the node is
/// annotated; nothing for the root, text leaves, spanless nodes, and raw
/// markup without an annotatable tag shape.
pub open spec fn node_entry(n: DocNode) -> Option<Spos> {
    match n.span {
        Option::None => Option::None,
        Option::Some(sp) => match n.payload {
            NodePayload::Root => Option::None,
            NodePayload::Text => Option::None,
            NodePayload::Block => Option::Some(sp),
            NodePayload::CodeFragment { html } => if code_fragment_ok(html@) {
                Option::Some(sp)
            } else {
                Option::None
            },
            NodePayload::RawMarkup { content } => if markup_annotatable(content@) {
                Option::Some(sp)
            } else {
                Option::None
            },
        },
    }
}

/// The whole index of a node sequence: the entries of its nodes, in order.
pub open spec fn index_spec(s: Seq<DocNode>) -> Seq<Spos>
    decreases s.len(),
{
    if s.len() == 0 {
        Seq::empty()
    } else {
        index_spec(s.drop_last()) + match node_entry(s.last()) {
            Option::Some(sp) => seq![sp],
            Option::None => Seq::empty(),
        }
    }
}

/// Law: the index holds nothing but spans its nodes carry, so an index
/// built over well-formed spans is well-formed throughout — what the
/// locator asks of it.
pub proof fn lemma_index_spans_wf(s: Seq<DocNode>)
    requires
        forall|i: int| 0 <= i < s.len() ==> (#[trigger] s[i].span matches Some(sp) ==> sp.wf()),
    ensures
        crate::spos::all_wf(index_spec(s)),
    decreases s.len(),
{
    if s.len() > 0 {
        assert(forall|i: int| 0 <= i < s.drop_last().len() ==> s.drop_last()[i] == s[i]);
        lemma_index_spans_wf(s.drop_last());
        assert(s.last() == s[s.len() - 1]);
        match node_entry(s.last()) {
            Option::Some(sp) => {
                assert(sp == s.last().span->Some_0);
                assert(sp.wf());
            },
            Option::None => {},
        }
    }
}

/// Two payloads with the same tag and the same content.
pub open spec fn same_payload(p: NodePayload, q: NodePayload) -> bool {
    match (p, q) {
        (NodePayload::Root, NodePayload::Root) => true,
        (NodePayload::Text, NodePayload::Text) => true,
        (NodePayload::Block, NodePayload::Block) => true,
        (NodePayload::CodeFragment { html: h1 }, NodePayload::CodeFragment { html: h2 }) => h1@
            == h2@,
        (NodePayload::RawMarkup { content: c1 }, NodePayload::RawMarkup { content: c2 }) => c1@
            == c2@,
        _ => false,
    }
}

/// How an indexed node must relate to the node it came from: unchanged and
/// unattributed where ineligible, the identifier as an attribute on a
/// generic node, and the identifier spliced into the markup text of a code
/// fragment or an annotatable raw markup block.
pub open spec fn node_annotated(n: DocNode, a: AnnotatedNode) -> bool {
    match n.span {
        Option::None => same_payload(a.payload, n.payload) && a.attr is None,
        Option::Some(sp) => match n.payload {
            NodePayload::Root => same_payload(a.payload, n.payload) && a.attr is None,
            NodePayload::Text => same_payload(a.payload, n.payload) && a.attr is None,
            NodePayload::Block => a.payload is Block && (a.attr matches Some(v) && v@
                == spec_selector(sp)),
            NodePayload::CodeFragment { html } => a.attr is None && (a.payload matches
                NodePayload::CodeFragment { html: h2 } && h2@ == spliced_code(html@, sp)),
            NodePayload::RawMarkup { content } => a.attr is None && (if markup_annotatable(
                content@,
            ) {
                a.payload matches NodePayload::RawMarkup { content: c2 } && c2@
                    == annotated_markup(content@, sp)
            } else {
                same_payload(a.payload, n.payload)
            }),
        },
    }
}

/// The position-indexing pass: one walk over the parsed nodes that
/// annotates every eligible node and collects the range index.
pub struct SyntaxPosRule;

impl SyntaxPosRule {
    /// Annotates every eligible node of one parse and produces the range
    /// index: exactly one entry per annotated node, in tree-walk order.
    /// The build aborts, yielding no output at all, exactly when some
    /// spanned code fragment lacks the spliceable opening tag.
    pub fn run(nodes: &Vec<DocNode>) -> (r: Result<(Vec<AnnotatedNode>, SposesExt), IndexError>)
        ensures
            r is Ok <==> (forall|i: int| 0 <= i < nodes@.len() ==> !node_fails(#[trigger] nodes@[i])),
            r matches Ok(ok) ==> {
                &&& ok.0@.len() == nodes@.len()
                &&& forall|i: int|
                    0 <= i < nodes@.len() ==> node_annotated(#[trigger] nodes@[i], ok.0@[i])
                &&& ok.1.sposes@ == index_spec(nodes@)
            },
            r is Err ==> r == Result::<(Vec<AnnotatedNode>, SposesExt), IndexError>::Err(
                IndexError::MalformedCodeFragment,
            ),
    {
        let n = nodes.len();
        let mut out: Vec<AnnotatedNode> = Vec::new();
        let mut sposes: Vec<Spos> = Vec::new();
        let mut i: usize = 0;
        while i < n
            invariant
                i <= n == nodes@.len(),
                out@.len() == i,
                forall|j: int| 0 <= j < i ==> node_annotated(#[trigger] nodes@[j], out@[j]),
                forall|j: int| 0 <= j < i ==> !node_fails(#[trigger] nodes@[j]),
                sposes@ == index_spec(nodes@.take(i as int)),
            decreases n - i,
        {
            proof {
                assert(nodes@.take(i + 1).drop_last() =~= nodes@.take(i as int));
                assert(nodes@.take(i + 1).last() == nodes@[i as int]);
            }
            let node = &nodes[i];
            match &node.payload {
                NodePayload::Root => {
                    out.push(AnnotatedNode { payload: NodePayload::Root, attr: Option::None });
                },
                NodePayload::Text => {
                    out.push(AnnotatedNode { payload: NodePayload::Text, attr: Option::None });
                },
                NodePayload::Block => {
                    match node.span {
                        Option::Some(sp) => {
                            out.push(
                                AnnotatedNode {
                                    payload: NodePayload::Block,
                                    attr: Option::Some(selector_string(sp)),
                                },
                            );
                            sposes.push(sp);
                        },
                        Option::None => {
                            out.push(
                                AnnotatedNode { payload: NodePayload::Block, attr: Option::None },
                            );
                        },
                    }
                },
                NodePayload::CodeFragment { html } => {
                    match node.span {
                        Option::Some(sp) => {
                            match splice_code_fragment(html.as_str(), sp) {
                                Result::Ok(new_html) => {
                                    out.push(
                                        AnnotatedNode {
                                            payload: NodePayload::CodeFragment { html: new_html },
                                            attr: Option::None,
                                        },
                                    );
                                    sposes.push(sp);
                                },
                                Result::Err(e) => {
                                    proof {
                                        assert(node_fails(nodes@[i as int]));
                                    }
                                    return Result::Err(e);
                                },
                            }
                        },
                        Option::None => {
                            out.push(
                                AnnotatedNode {
                                    payload: NodePayload::CodeFragment { html: html.clone() },
                                    attr: Option::None,
                                },
                            );
                        },
                    }
                },
                NodePayload::RawMarkup { content } => {
                    match node.span {
                        Option::Some(sp) => {
                            match annotate_raw_markup(content.as_str(), sp) {
                                Option::Some(new_content) => {
                                    out.push(
                                        AnnotatedNode {
                                            payload: NodePayload::RawMarkup {
                                                content: new_content,
                                            },
                                            attr: Option::None,
                                        },
                                    );
                                    sposes.push(sp);
                                },
                                Option::None => {
                                    out.push(
                                        AnnotatedNode {
                                            payload: NodePayload::RawMarkup {
                                                content: content.clone(),
                                            },
                                            attr: Option::None,
                                        },
                                    );
                                },
                            }
                        },
                        Option::None => {
                            out.push(
                                AnnotatedNode {
                                    payload: NodePayload::RawMarkup { content: content.clone() },
                                    attr: Option::None,
                                },
                            );
                        },
                    }
                },
            }
            proof {
                assert(sposes@ =~= index_spec(nodes@.take(i as int + 1)));
            }
            i = i + 1;
        }
        proof {
            assert(nodes@.take(n as int) =~= nodes@);
        }
        Result::Ok((out, SposesExt { sposes }))
    }
}

} // verus!
