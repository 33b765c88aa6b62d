use crate::ir::semantical_analizer::{lower, lower_all, lower_program};
use crate::parser::ast::StmtView;
use crate::ir::ir::{lemma_element_view, lemma_program_view, nodes_view, IRView, IR};
use vstd::prelude::*;
use vstd::string::StringExecFns;

verus! {

/// The HTML text of a node: an element is its open tag, its children's text and its
/// close tag; text is emitted as it is, without escaping; other nodes emit nothing.
pub open spec fn html(ir: IRView) -> Seq<char>
    decreases ir,
{
    match ir {
        IRView::Program(nodes) => html_all(nodes),
        IRView::Element(tag, nodes) => seq!['<'] + tag + seq!['>'] + html_all(nodes) + seq!['<', '/']
            + tag + seq!['>'],
        IRView::Text(text) => text,
        _ => Seq::empty(),
    }
}

/// The HTML text of a sequence of nodes, one after the other.
pub open spec fn html_all(nodes: Seq<IRView>) -> Seq<char>
    decreases nodes,
{
    if nodes.len() == 0 {
        Seq::empty()
    } else {
        html_all(nodes.drop_last()) + html(nodes.last())
    }
}

/// Two translations of the same IR, each into a fresh buffer, give the same text: what
/// `translate` returns depends on the IR and the buffer alone.
pub proof fn lemma_translate_repeatable(ir: IRView, first: Seq<char>, second: Seq<char>)
    requires
        first == Seq::<char>::empty() + html(ir),
        second == Seq::<char>::empty() + html(ir),
    ensures
        first == second,
        first == html(ir),
{
    assert(Seq::<char>::empty() + html(ir) =~= html(ir));
}

// ---------------------------------------------------------------------------
// Reading the tags back
// ---------------------------------------------------------------------------

/// An open or a close tag.
pub ghost enum TagEvent {
    Open(Seq<char>),
    Close(Seq<char>),
}

/// The tags of a statement of the source, in document order.
pub open spec fn source_tags(s: StmtView) -> Seq<TagEvent>
    decreases s,
{
    match s {
        StmtView::Element(tag, children) => seq![TagEvent::Open(tag)] + source_tags_all(children)
            + seq![TagEvent::Close(tag)],
        _ => Seq::empty(),
    }
}

pub open spec fn source_tags_all(ss: Seq<StmtView>) -> Seq<TagEvent>
    decreases ss,
{
    if ss.len() == 0 {
        Seq::empty()
    } else {
        source_tags_all(ss.drop_last()) + source_tags(ss.last())
    }
}

/// No text holds `<`, and no tag name holds `>` or starts with `/`.
pub open spec fn plain_markup(s: StmtView) -> bool
    decreases s,
{
    match s {
        StmtView::Element(tag, children) => (forall|k: int| 0 <= k < tag.len() ==> tag[k] != '>')
            && (tag.len() > 0 ==> tag[0] != '/') && plain_markup_all(children),
        StmtView::Text(text) => forall|k: int| 0 <= k < text.len() ==> text[k] != '<',
        _ => true,
    }
}

pub open spec fn plain_markup_all(ss: Seq<StmtView>) -> bool
    decreases ss,
{
    if ss.len() == 0 {
        true
    } else {
        plain_markup_all(ss.drop_last()) && plain_markup(ss.last())
    }
}

/// The index of the first `>` at or after `i`, or the length of `h` if there is none.
pub open spec fn close_index(h: Seq<char>, i: int) -> int
    decreases h.len() - i,
{
    if i < 0 || i >= h.len() {
        h.len() as int
    } else if h[i] == '>' {
        i
    } else {
        close_index(h, i + 1)
    }
}

/// The tag written between `<` and `>`.
pub open spec fn tag_event(body: Seq<char>) -> TagEvent {
    if body.len() > 0 && body[0] == '/' {
        TagEvent::Close(body.subrange(1, body.len() as int))
    } else {
        TagEvent::Open(body)
    }
}

/// Reads the tags of an HTML text back by counting: each `<name>` opens, each `</name>`
/// closes, and everything else is skipped.
pub open spec fn scan_tags(h: Seq<char>) -> Seq<TagEvent>
    decreases h.len(),
{
    if h.len() == 0 {
        Seq::empty()
    } else if h[0] == '<' {
        let j = close_index(h, 1);
        if 1 <= j < h.len() {
            seq![tag_event(h.subrange(1, j))] + scan_tags(h.subrange(j + 1, h.len() as int))
        } else {
            Seq::empty()
        }
    } else {
        scan_tags(h.subrange(1, h.len() as int))
    }
}

proof fn lemma_scan_skips_text(text: Seq<char>, rest: Seq<char>)
    requires
        forall|k: int| 0 <= k < text.len() ==> text[k] != '<',
    ensures
        scan_tags(text + rest) == scan_tags(rest),
    decreases text.len(),
{
    if text.len() > 0 {
        let h = text + rest;
        let t1 = text.subrange(1, text.len() as int);
        assert(h.subrange(1, h.len() as int) =~= t1 + rest);
        lemma_scan_skips_text(t1, rest);
    }
}

proof fn lemma_close_index(h: Seq<char>, body: Seq<char>, i: int)
    requires
        1 <= i <= body.len() + 1,
        h.len() > body.len() + 1,
        forall|k: int| 0 <= k < body.len() ==> body[k] != '>' && h[k + 1] == body[k],
        h[body.len() + 1 as int] == '>',
    ensures
        close_index(h, i) == body.len() + 1,
    decreases body.len() + 1 - i,
{
    if i <= body.len() {
        assert(h[i] == body[i - 1]);
        lemma_close_index(h, body, i + 1);
    }
}

proof fn lemma_scan_tag(body: Seq<char>, rest: Seq<char>)
    requires
        forall|k: int| 0 <= k < body.len() ==> body[k] != '>',
    ensures
        scan_tags(seq!['<'] + body + seq!['>'] + rest) == seq![tag_event(body)] + scan_tags(rest),
{
    let h = seq!['<'] + body + seq!['>'] + rest;
    let j = body.len() + 1int;
    assert(h[0] == '<');
    assert(h[j] == '>');
    assert forall|k: int| 0 <= k < body.len() implies body[k] != '>' && h[k + 1] == body[k] by {}
    lemma_close_index(h, body, 1);
    assert(h.subrange(1, j) =~= body);
    assert(h.subrange(j + 1, h.len() as int) =~= rest);
}

proof fn lemma_scan_lowered(s: StmtView, rest: Seq<char>)
    requires
        plain_markup(s),
    ensures
        scan_tags(html(lower(s)) + rest) == source_tags(s) + scan_tags(rest),
    decreases s, 1int,
{
    match s {
        StmtView::Element(tag, children) => {
            let inner = html_all(lower_all(children));
            assert(lower(s)->Element_1 =~= lower_all(children));
            let close = seq!['<', '/'] + tag + seq!['>'];
            let slash_tag = seq!['/'] + tag;
            assert(close =~= seq!['<'] + slash_tag + seq!['>']);
            assert(html(lower(s)) + rest =~= seq!['<'] + tag + seq!['>'] + (inner + (close + rest)));
            lemma_scan_tag(tag, inner + (close + rest));
            lemma_scan_lowered_all(children, close + rest);
            assert forall|k: int| 0 <= k < slash_tag.len() implies slash_tag[k] != '>' by {
                if k > 0 {
                    assert(slash_tag[k] == tag[k - 1]);
                }
            }
            lemma_scan_tag(slash_tag, rest);
            assert(slash_tag.subrange(1, slash_tag.len() as int) =~= tag);
            assert(source_tags(s) =~= seq![TagEvent::Open(tag)] + source_tags_all(children)
                + seq![TagEvent::Close(tag)]);
            assert(seq![TagEvent::Open(tag)] + (source_tags_all(children) + (seq![TagEvent::Close(tag)] + scan_tags(rest)))
                =~= source_tags(s) + scan_tags(rest));
        },
        StmtView::Text(text) => {
            lemma_scan_skips_text(text, rest);
        },
        _ => {
            assert(html(lower(s)) + rest =~= rest);
        },
    }
}

proof fn lemma_scan_lowered_all(ss: Seq<StmtView>, rest: Seq<char>)
    requires
        plain_markup_all(ss),
    ensures
        scan_tags(html_all(lower_all(ss)) + rest) == source_tags_all(ss) + scan_tags(rest),
    decreases ss, 0int,
{
    if ss.len() == 0 {
        assert(html_all(lower_all(ss)) + rest =~= rest);
    } else {
        let init = ss.drop_last();
        let last = ss.last();
        assert(lower_all(ss).drop_last() =~= lower_all(init));
        assert(html_all(lower_all(ss)) + rest =~= html_all(lower_all(init)) + (html(lower(last)) + rest));
        lemma_scan_lowered(last, rest);
        lemma_scan_lowered_all(init, html(lower(last)) + rest);
        assert(source_tags_all(init) + (source_tags(last) + scan_tags(rest)) =~= source_tags_all(ss)
            + scan_tags(rest));
    }
}

/// The HTML text of a program, read back by tag counting, gives the source's tags in
/// the source's order, so the same names at the same nesting depths; this holds where
/// no text holds `<` (text is emitted without escaping).
pub proof fn lemma_html_keeps_tags(ss: Seq<StmtView>)
    requires
        plain_markup_all(ss),
    ensures
        scan_tags(html(lower_program(ss))) == source_tags_all(ss),
{
    lemma_scan_lowered_all(ss, Seq::empty());
    assert(html(lower_program(ss)) + Seq::<char>::empty() =~= html(lower_program(ss)));
    assert(source_tags_all(ss) + Seq::<TagEvent>::empty() =~= source_tags_all(ss));
}

/// Renders IR as HTML into a growing buffer.
pub struct TranslatorHTML {
    pub output: String,
}

impl TranslatorHTML {
    /// Appends the HTML text of `ir` to the buffer and returns the whole buffer.
    pub fn translate(&mut self, ir: &IR) -> (r: String)
        ensures
            final(self).output@ == old(self).output@ + html(ir@),
            r@ == final(self).output@,
    {
        self.emit(ir);
        self.output.clone()
    }

    fn emit(&mut self, ir: &IR)
        ensures
            final(self).output@ == old(self).output@ + html(ir@),
        decreases ir, 1int,
    {
        let ghost start = self.output@;
        match ir {
            IR::Program(statements) => {
                proof {
                    lemma_program_view(*statements);
                }
                self.emit_all(statements);
            },
            IR::Element(tag, children) => {
                proof {
                    lemma_element_view(*tag, *children);
                    reveal_strlit("<");
                    reveal_strlit(">");
                    reveal_strlit("</");
                    assert("<"@ =~= seq!['<']);
                    assert(">"@ =~= seq!['>']);
                    assert("</"@ =~= seq!['<', '/']);
                }
                self.output.append("<");
                self.output.append(tag.as_str());
                self.output.append(">");
                self.emit_all(children);
                self.output.append("</");
                self.output.append(tag.as_str());
                self.output.append(">");
            },
            IR::String(s) => {
                self.output.append(s.as_str());
            },
            _ => {},
        }
        assert(self.output@ =~= start + html(ir@));
    }

    fn emit_all(&mut self, nodes: &Vec<Box<IR>>)
        ensures
            final(self).output@ == old(self).output@ + html_all(nodes_view(nodes@)),
        decreases nodes, 0int,
    {
        let mut i: usize = 0;
        while i < nodes.len()
            invariant
                i <= nodes@.len(),
                self.output@ == old(self).output@ + html_all(nodes_view(nodes@).subrange(0, i as int)),
            decreases nodes@.len() - i,
        {
            proof {
                assert(decreases_to!(nodes => nodes@[i as int]));
            }
            self.emit(&nodes[i]);
            proof {
                let vs = nodes_view(nodes@);
                assert(vs.subrange(0, i + 1).drop_last() =~= vs.subrange(0, i as int));
            }
            i = i + 1;
        }
        assert(nodes_view(nodes@).subrange(0, i as int) =~= nodes_view(nodes@));
    }
}

} // verus!
