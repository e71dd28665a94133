//! The simplified document tree, the builder that folds the low-level event
//! stream into it, and paragraph flattening.

use vstd::prelude::*;

use crate::Span;
use crate::events::{MdEvent, MdTag, SpannedEvent};
use crate::parser::RecipeParser;

verus! {

/// One element of the simplified document tree.
#[derive(Debug, PartialEq)]
pub struct Node {
    pub kind: NodeKind,
    pub span: Span,
}

/// The simplified kind of a document node, as far as recipe parsing cares.
#[derive(Debug, PartialEq)]
pub enum NodeKind {
    Heading { level: u8, children: Vec<Node> },
    Paragraph(Vec<Node>),
    Emphasis(Vec<Node>),
    Strong(Vec<Node>),
    List(Vec<Node>),
    ListItem(Vec<Node>),
    HorizontalLine,
    Text(String),
    Link { destination: String, children: Vec<Node> },
    Other,
}

/// Ghost model of a [`Node`].
pub ghost struct NodeM {
    pub kind: NodeKindM,
    pub span: Span,
}

/// Ghost model of a [`NodeKind`].
pub ghost enum NodeKindM {
    Heading { level: u8, children: Seq<NodeM> },
    Paragraph(Seq<NodeM>),
    Emphasis(Seq<NodeM>),
    Strong(Seq<NodeM>),
    List(Seq<NodeM>),
    ListItem(Seq<NodeM>),
    HorizontalLine,
    Text(Seq<char>),
    Link { destination: Seq<char>, children: Seq<NodeM> },
    Other,
}

pub open spec fn node_view(n: Node) -> NodeM
    decreases n,
{
    NodeM { kind: kind_view(n.kind), span: n.span }
}

pub open spec fn kind_view(k: NodeKind) -> NodeKindM
    decreases k,
{
    match k {
        NodeKind::Heading { level, children } => NodeKindM::Heading {
            level,
            children: nodes_view(children@),
        },
        NodeKind::Paragraph(c) => NodeKindM::Paragraph(nodes_view(c@)),
        NodeKind::Emphasis(c) => NodeKindM::Emphasis(nodes_view(c@)),
        NodeKind::Strong(c) => NodeKindM::Strong(nodes_view(c@)),
        NodeKind::List(c) => NodeKindM::List(nodes_view(c@)),
        NodeKind::ListItem(c) => NodeKindM::ListItem(nodes_view(c@)),
        NodeKind::HorizontalLine => NodeKindM::HorizontalLine,
        NodeKind::Text(t) => NodeKindM::Text(t@),
        NodeKind::Link { destination, children } => NodeKindM::Link {
            destination: destination@,
            children: nodes_view(children@),
        },
        NodeKind::Other => NodeKindM::Other,
    }
}

pub open spec fn nodes_view(s: Seq<Node>) -> Seq<NodeM>
    decreases s,
{
    if s.len() == 0 {
        Seq::empty()
    } else {
        seq![node_view(s[0])] + nodes_view(s.drop_first())
    }
}

/// A node-list view keeps the length and views each element.
pub proof fn lemma_nodes_view(s: Seq<Node>)
    ensures
        nodes_view(s).len() == s.len(),
        forall|i: int| 0 <= i < s.len() ==> nodes_view(s)[i] == node_view(#[trigger] s[i]),
    decreases s.len(),
{
    if s.len() > 0 {
        lemma_nodes_view(s.drop_first());
        assert forall|i: int| 0 <= i < s.len() implies nodes_view(s)[i] == node_view(
            #[trigger] s[i],
        ) by {
            if i > 0 {
                assert(s.drop_first()[i - 1] == s[i]);
            }
        }
    }
}

/// The total span of a non-empty run of sibling nodes: from the first
/// node's start to the last node's end.
pub open spec fn spec_nodes_span(s: Seq<NodeM>) -> Span {
    if s.len() == 0 {
        Span { start: 0, end: 0 }
    } else {
        Span { start: s[0].span.start, end: s[s.len() - 1].span.end }
    }
}

/// The calculated total span of multiple adjacent nodes.
pub fn nodes_span(nodes: &Vec<Node>) -> (r: Span)
    requires
        nodes@.len() > 0,
    ensures
        r == spec_nodes_span(nodes_view(nodes@)),
{
    proof {
        lemma_nodes_view(nodes@);
    }
    Span { start: nodes[0].span.start, end: nodes[nodes.len() - 1].span.end }
}

/// The children a node's kind carries, at the executable level.
pub open spec fn children_of_kind(k: NodeKind) -> Seq<Node> {
    match k {
        NodeKind::Heading { children, .. } => children@,
        NodeKind::Paragraph(c) => c@,
        NodeKind::Emphasis(c) => c@,
        NodeKind::Strong(c) => c@,
        NodeKind::List(c) => c@,
        NodeKind::ListItem(c) => c@,
        NodeKind::Link { children, .. } => children@,
        _ => Seq::empty(),
    }
}

/// A node is structurally larger than each of its children, so recursion
/// over children terminates.
pub proof fn lemma_node_decreases_to_child(n: Node, i: int)
    requires
        0 <= i < children_of_kind(n.kind).len(),
    ensures
        decreases_to!(n => children_of_kind(n.kind)[i]),
{
    assert(decreases_to!(n => n.kind));
    match n.kind {
        NodeKind::Heading { .. } => {
            assert(decreases_to!(n.kind => n.kind->Heading_children));
            assert(decreases_to!(n.kind->Heading_children => n.kind->Heading_children@));
            assert(decreases_to!(n.kind->Heading_children@ => n.kind->Heading_children@[i]));
        },
        NodeKind::Paragraph(..) => {
            assert(decreases_to!(n.kind => n.kind->Paragraph_0));
            assert(decreases_to!(n.kind->Paragraph_0 => n.kind->Paragraph_0@));
            assert(decreases_to!(n.kind->Paragraph_0@ => n.kind->Paragraph_0@[i]));
        },
        NodeKind::Emphasis(..) => {
            assert(decreases_to!(n.kind => n.kind->Emphasis_0));
            assert(decreases_to!(n.kind->Emphasis_0 => n.kind->Emphasis_0@));
            assert(decreases_to!(n.kind->Emphasis_0@ => n.kind->Emphasis_0@[i]));
        },
        NodeKind::Strong(..) => {
            assert(decreases_to!(n.kind => n.kind->Strong_0));
            assert(decreases_to!(n.kind->Strong_0 => n.kind->Strong_0@));
            assert(decreases_to!(n.kind->Strong_0@ => n.kind->Strong_0@[i]));
        },
        NodeKind::List(..) => {
            assert(decreases_to!(n.kind => n.kind->List_0));
            assert(decreases_to!(n.kind->List_0 => n.kind->List_0@));
            assert(decreases_to!(n.kind->List_0@ => n.kind->List_0@[i]));
        },
        NodeKind::ListItem(..) => {
            assert(decreases_to!(n.kind => n.kind->ListItem_0));
            assert(decreases_to!(n.kind->ListItem_0 => n.kind->ListItem_0@));
            assert(decreases_to!(n.kind->ListItem_0@ => n.kind->ListItem_0@[i]));
        },
        NodeKind::Link { .. } => {
            assert(decreases_to!(n.kind => n.kind->Link_children));
            assert(decreases_to!(n.kind->Link_children => n.kind->Link_children@));
            assert(decreases_to!(n.kind->Link_children@ => n.kind->Link_children@[i]));
        },
        _ => {},
    }
}

/// The total span of a node list, with the zero span for an empty list.
pub fn span_or_zero(nodes: &Vec<Node>) -> (r: Span)
    ensures
        r == spec_nodes_span(nodes_view(nodes@)),
{
    proof {
        lemma_nodes_view(nodes@);
    }
    if nodes.len() == 0 {
        Span { start: 0, end: 0 }
    } else {
        Span { start: nodes[0].span.start, end: nodes[nodes.len() - 1].span.end }
    }
}

/// An index into the event stream, cut off at its length.
pub open spec fn clamp_idx(len: int, j: int) -> int {
    if j > len {
        len
    } else {
        j
    }
}

/// The span end a container falls back to when its closing event is
/// missing: the last child's end, or the opening event's own end.
pub open spec fn spec_fallback_end(ev: SpannedEvent, children: Seq<NodeM>) -> usize {
    if children.len() > 0 {
        children[children.len() - 1].span.end
    } else {
        ev.end
    }
}

/// The node kind a container tag wraps its children in.
pub open spec fn spec_make_kind(tag: MdTag, children: Seq<NodeM>) -> NodeKindM {
    match tag {
        MdTag::Heading(level) => NodeKindM::Heading { level, children },
        MdTag::Paragraph => NodeKindM::Paragraph(children),
        MdTag::Emphasis => NodeKindM::Emphasis(children),
        MdTag::Strong => NodeKindM::Strong(children),
        MdTag::List => NodeKindM::List(children),
        MdTag::Item => NodeKindM::ListItem(children),
        MdTag::Link(destination) => NodeKindM::Link { destination: destination@, children },
        MdTag::Other => NodeKindM::Other,
    }
}

/// The node a leaf event becomes.
pub open spec fn spec_leaf_kind(ev: MdEvent) -> NodeKindM {
    match ev {
        MdEvent::Rule => NodeKindM::HorizontalLine,
        MdEvent::Text(t) => NodeKindM::Text(t@),
        _ => NodeKindM::Other,
    }
}

/// What the node builder makes of the event at `i`: `None` at the end of
/// the stream or at a closing event (the end of the current children list);
/// otherwise the built node and the count of extra events it consumed
/// beyond the first (the next node starts at `i + 1 + extra`).
pub open spec fn spec_parse_node(evs: Seq<SpannedEvent>, i: int) -> Option<(NodeM, nat)>
    decreases evs.len() - i, 0int,
{
    if i < 0 || i >= evs.len() {
        Option::None
    } else {
        let ev = evs[i];
        match ev.event {
            MdEvent::End => Option::None,
            MdEvent::Start(tag) => {
                let cu = spec_parse_children(evs, i + 1);
                let children = cu.0;
                let used = cu.1;
                let close = clamp_idx(evs.len() as int, i + 1 + used);
                let has_close = close < evs.len() && evs[close].event is End;
                let end = if has_close {
                    evs[close].end
                } else {
                    spec_fallback_end(ev, children)
                };
                let extra: nat = if has_close {
                    used + 1
                } else {
                    used
                };
                Option::Some(
                    (
                        NodeM {
                            kind: spec_make_kind(tag, children),
                            span: Span { start: ev.start, end },
                        },
                        extra,
                    ),
                )
            },
            _ => Option::Some(
                (NodeM { kind: spec_leaf_kind(ev.event), span: Span { start: ev.start, end: ev.end } }, 0nat),
            ),
        }
    }
}

/// The run of nodes the builder collects until the stream ends or a closing
/// event is reached, together with the count of events consumed.
pub open spec fn spec_parse_children(evs: Seq<SpannedEvent>, i: int) -> (Seq<NodeM>, nat)
    decreases evs.len() - i, 1int,
{
    if i < 0 || i >= evs.len() {
        (Seq::empty(), 0nat)
    } else {
        match spec_parse_node(evs, i) {
            Option::None => (Seq::empty(), 0nat),
            Option::Some((n, extra)) => {
                let ni = clamp_idx(evs.len() as int, i + 1 + extra);
                let ru = spec_parse_children(evs, ni);
                (seq![n] + ru.0, ((ni - i) + ru.1) as nat)
            },
        }
    }
}

/// Collects child nodes starting at `i` until the stream ends or a closing
/// event is reached; returns them with the index of what stopped the run.
fn parse_children_at(events: &Vec<SpannedEvent>, i: usize) -> (r: (Vec<Node>, usize))
    requires
        i <= events@.len(),
    ensures
        ({
            let cu = spec_parse_children(events@, i as int);
            &&& nodes_view(r.0@) == cu.0
            &&& r.1 == i + cu.1
            &&& i <= r.1 <= events@.len()
        }),
    decreases events@.len() - i, 1int,
{
    let ghost evs = events@;
    let mut children: Vec<Node> = Vec::new();
    let mut cur: usize = i;
    loop
        invariant_except_break
            i <= cur <= evs.len(),
            events@ == evs,
            ({
                let total = spec_parse_children(evs, i as int);
                let rest = spec_parse_children(evs, cur as int);
                &&& total.0 == nodes_view(children@) + rest.0
                &&& total.1 == (cur - i) + rest.1
            }),
        ensures
            events@ == evs,
            i <= cur <= evs.len(),
            ({
                let total = spec_parse_children(evs, i as int);
                &&& total.0 == nodes_view(children@)
                &&& total.1 == cur - i
            }),
        decreases evs.len() - cur,
    {
        match parse_node_at(events, cur) {
            Some(p) => {
                let (node, ni) = p;
                proof {
                    let rest = spec_parse_children(evs, cur as int);
                    let rest2 = spec_parse_children(evs, ni as int);
                    lemma_nodes_view_push(children@, node);
                    assert(rest.0 =~= seq![node_view(node)] + rest2.0);
                    assert(nodes_view(children@.push(node)) + rest2.0 =~= nodes_view(children@)
                        + rest.0);
                }
                children.push(node);
                cur = ni;
            },
            None => {
                proof {
                    assert(spec_parse_children(evs, cur as int).0 =~= Seq::<NodeM>::empty());
                    assert(nodes_view(children@) + Seq::<NodeM>::empty() =~= nodes_view(
                        children@,
                    ));
                }
                break ;
            },
        }
    }
    (children, cur)
}

/// Appending a node to a list extends its view by the node's view.
pub proof fn lemma_nodes_view_push(s: Seq<Node>, n: Node)
    ensures
        nodes_view(s.push(n)) =~= nodes_view(s) + seq![node_view(n)],
    decreases s.len(),
{
    lemma_nodes_view(s.push(n));
    lemma_nodes_view(s);
    let lhs = nodes_view(s.push(n));
    let rhs = nodes_view(s) + seq![node_view(n)];
    assert(lhs.len() == rhs.len());
    assert forall|i: int| 0 <= i < lhs.len() implies lhs[i] == rhs[i] by {
        if i < s.len() {
            assert(s.push(n)[i] == s[i]);
        } else {
            assert(s.push(n)[i] == n);
        }
    }
}

/// Builds the node that starts at event `i`, or `None` at the end of the
/// stream or at a closing event. On success also returns the index of the
/// first event after the node.
fn parse_node_at(events: &Vec<SpannedEvent>, i: usize) -> (r: Option<(Node, usize)>)
    requires
        i <= events@.len(),
    ensures
        match spec_parse_node(events@, i as int) {
            Option::Some((nm, extra)) => match r {
                Option::Some(p) => node_view(p.0) == nm && p.1 == clamp_idx(
                    events@.len() as int,
                    i + 1 + extra,
                ) && i < p.1 <= events@.len(),
                Option::None => false,
            },
            Option::None => r is None,
        },
    decreases events@.len() - i, 0int,
{
    if i >= events.len() {
        return None;
    }
    let ev = &events[i];
    match &ev.event {
        MdEvent::End => None,
        MdEvent::Start(tag) => {
            let (children, cur) = parse_children_at(events, i + 1);
            proof {
                lemma_nodes_view(children@);
            }
            let has_close = cur < events.len() && matches!(&events[cur].event, MdEvent::End);
            let end: usize = if has_close {
                events[cur].end
            } else {
                if children.len() > 0 {
                    children[children.len() - 1].span.end
                } else {
                    ev.end
                }
            };
            let ni: usize = if has_close {
                cur + 1
            } else {
                cur
            };
            let kind = match tag {
                MdTag::Heading(level) => NodeKind::Heading { level: *level, children },
                MdTag::Paragraph => NodeKind::Paragraph(children),
                MdTag::Emphasis => NodeKind::Emphasis(children),
                MdTag::Strong => NodeKind::Strong(children),
                MdTag::List => NodeKind::List(children),
                MdTag::Item => NodeKind::ListItem(children),
                MdTag::Link(destination) => NodeKind::Link {
                    destination: destination.clone(),
                    children,
                },
                MdTag::Other => NodeKind::Other,
            };
            Some((Node { kind, span: Span { start: ev.start, end } }, ni))
        },
        MdEvent::Rule => Some(
            (Node { kind: NodeKind::HorizontalLine, span: Span { start: ev.start, end: ev.end } }, i
                + 1),
        ),
        MdEvent::Text(t) => Some(
            (Node { kind: NodeKind::Text(t.clone()), span: Span { start: ev.start, end: ev.end } }, i
                + 1),
        ),
        _ => Some(
            (Node { kind: NodeKind::Other, span: Span { start: ev.start, end: ev.end } }, i + 1),
        ),
    }
}

impl RecipeParser {
    /// Consumes events until a complete node can be returned. Returns
    /// `None` when the underlying stream reaches its end or the current
    /// nesting level is exhausted; the caller then owns consuming the
    /// matching closing event. The position cursor advances to each
    /// produced node's span end.
    pub fn parse_node(&mut self) -> (r: Option<Node>)
        requires
            old(self).idx <= old(self).events@.len(),
        ensures
            final(self).src == old(self).src,
            final(self).events == old(self).events,
            final(self).idx <= final(self).events@.len(),
            match spec_parse_node(old(self).events@, old(self).idx as int) {
                Option::Some((nm, extra)) => match r {
                    Option::Some(n) => node_view(n) == nm && final(self).idx == clamp_idx(
                        old(self).events@.len() as int,
                        old(self).idx + 1 + extra,
                    ) && old(self).idx < final(self).idx && final(self).pos == nm.span.end,
                    Option::None => false,
                },
                Option::None => r is None && final(self).idx == old(self).idx && final(self).pos
                    == old(self).pos,
            },
    {
        match parse_node_at(&self.events, self.idx) {
            Some(p) => {
                let (node, ni) = p;
                self.idx = ni;
                self.pos = node.span.end;
                Some(node)
            },
            None => None,
        }
    }
}

/// What flattening makes of a node: in every container, each immediate
/// paragraph child is replaced by its own (recursively flattened) children,
/// and every other child is flattened in place.
pub open spec fn spec_flatten(n: NodeM) -> NodeM
    decreases n,
{
    match n.kind {
        NodeKindM::Heading { level, children } => NodeM {
            kind: NodeKindM::Heading { level, children: spec_flatten_list(children) },
            span: n.span,
        },
        NodeKindM::Paragraph(c) => NodeM { kind: NodeKindM::Paragraph(spec_flatten_list(c)), span: n.span },
        NodeKindM::Emphasis(c) => NodeM { kind: NodeKindM::Emphasis(spec_flatten_list(c)), span: n.span },
        NodeKindM::Strong(c) => NodeM { kind: NodeKindM::Strong(spec_flatten_list(c)), span: n.span },
        NodeKindM::List(c) => NodeM { kind: NodeKindM::List(spec_flatten_list(c)), span: n.span },
        NodeKindM::ListItem(c) => NodeM { kind: NodeKindM::ListItem(spec_flatten_list(c)), span: n.span },
        NodeKindM::Link { destination, children } => NodeM {
            kind: NodeKindM::Link { destination, children: spec_flatten_list(children) },
            span: n.span,
        },
        _ => n,
    }
}

pub open spec fn spec_flatten_list(s: Seq<NodeM>) -> Seq<NodeM>
    decreases s,
{
    if s.len() == 0 {
        Seq::empty()
    } else {
        let head = s[0];
        let rest = spec_flatten_list(s.drop_first());
        match head.kind {
            NodeKindM::Paragraph(pc) => spec_flatten_each(pc) + rest,
            _ => seq![spec_flatten(head)] + rest,
        }
    }
}

pub open spec fn spec_flatten_each(s: Seq<NodeM>) -> Seq<NodeM>
    decreases s,
{
    if s.len() == 0 {
        Seq::empty()
    } else {
        seq![spec_flatten(s[0])] + spec_flatten_each(s.drop_first())
    }
}

impl Node {
    /// Recursively replaces paragraph children with their own children.
    pub fn flatten_paragraphs(&self) -> (r: Node)
        ensures
            node_view(r) == spec_flatten(node_view(*self)),
        decreases *self,
    {
        match &self.kind {
            NodeKind::Heading { level, children } => Node {
                kind: NodeKind::Heading { level: *level, children: flatten_children(children) },
                span: self.span,
            },
            NodeKind::Paragraph(c) => Node {
                kind: NodeKind::Paragraph(flatten_children(c)),
                span: self.span,
            },
            NodeKind::Emphasis(c) => Node {
                kind: NodeKind::Emphasis(flatten_children(c)),
                span: self.span,
            },
            NodeKind::Strong(c) => Node {
                kind: NodeKind::Strong(flatten_children(c)),
                span: self.span,
            },
            NodeKind::List(c) => Node { kind: NodeKind::List(flatten_children(c)), span: self.span },
            NodeKind::ListItem(c) => Node {
                kind: NodeKind::ListItem(flatten_children(c)),
                span: self.span,
            },
            NodeKind::Link { destination, children } => Node {
                kind: NodeKind::Link {
                    destination: destination.clone(),
                    children: flatten_children(children),
                },
                span: self.span,
            },
            NodeKind::HorizontalLine => Node { kind: NodeKind::HorizontalLine, span: self.span },
            NodeKind::Text(t) => Node { kind: NodeKind::Text(t.clone()), span: self.span },
            NodeKind::Other => Node { kind: NodeKind::Other, span: self.span },
        }
    }
}

/// Flattens every node of a children list, splicing paragraph children in.
fn flatten_children(v: &Vec<Node>) -> (r: Vec<Node>)
    ensures
        nodes_view(r@) == spec_flatten_list(nodes_view(v@)),
    decreases *v,
{
    proof {
        lemma_nodes_view(v@);
    }
    let ghost nv = nodes_view(v@);
    let mut out: Vec<Node> = Vec::new();
    proof {
        assert(nv.skip(0) =~= nv);
        assert(nodes_view(out@) + spec_flatten_list(nv) =~= spec_flatten_list(nv));
    }
    let mut k: usize = 0;
    while k < v.len()
        invariant
            k <= v@.len(),
            nv == nodes_view(v@),
            nv.len() == v@.len(),
            forall|i: int| 0 <= i < v@.len() ==> nv[i] == node_view(#[trigger] v@[i]),
            spec_flatten_list(nv) == nodes_view(out@) + spec_flatten_list(nv.skip(k as int)),
        decreases v@.len() - k,
    {
        proof {
            assert(nv.skip(k as int)[0] == nv[k as int]);
            assert(nv.skip(k as int).drop_first() =~= nv.skip(k as int + 1));
        }
        match &v[k].kind {
            NodeKind::Paragraph(pc) => {
                proof {
                    lemma_nodes_view(pc@);
                }
                let ghost out0 = out@;
                let ghost pcv = nodes_view(pc@);
                proof {
                    assert(pcv.skip(0) =~= pcv);
                }
                let mut j: usize = 0;
                while j < pc.len()
                    invariant
                        j <= pc@.len(),
                        k < v@.len(),
                        v@[k as int].kind is Paragraph,
                        v@[k as int].kind->Paragraph_0 == *pc,
                        pcv == nodes_view(pc@),
                        pcv.len() == pc@.len(),
                        forall|i: int| 0 <= i < pc@.len() ==> pcv[i] == node_view(#[trigger] pc@[i]),
                        nodes_view(out@) + spec_flatten_each(pcv.skip(j as int)) == nodes_view(
                            out0,
                        ) + spec_flatten_each(pcv),
                    decreases pc@.len() - j,
                {
                    proof {
                        assert(pcv.skip(j as int)[0] == pcv[j as int]);
                        assert(pcv.skip(j as int).drop_first() =~= pcv.skip(j as int + 1));
                        assert(decreases_to!(*v => v@));
                        assert(decreases_to!(v@ => v@[k as int]));
                        assert(decreases_to!(v@[k as int] => v@[k as int].kind));
                        assert(decreases_to!(v@[k as int].kind => v@[k as int].kind->Paragraph_0));
                        assert(decreases_to!(v@[k as int].kind->Paragraph_0 => v@[
                            k as int
                        ].kind->Paragraph_0@));
                        assert(decreases_to!(v@[k as int].kind->Paragraph_0@ => v@[
                            k as int
                        ].kind->Paragraph_0@[j as int]));
                        assert(pc@[j as int] == v@[k as int].kind->Paragraph_0@[j as int]);
                    }
                    let f = pc[j].flatten_paragraphs();
                    proof {
                        lemma_nodes_view_push(out@, f);
                        assert(nodes_view(out@.push(f)) + spec_flatten_each(pcv.skip(
                            j as int + 1,
                        )) =~= nodes_view(out@) + spec_flatten_each(pcv.skip(j as int)));
                    }
                    out.push(f);
                    j = j + 1;
                }
                proof {
                    assert(pcv.skip(pc@.len() as int) =~= Seq::<NodeM>::empty());
                    assert(nodes_view(out@) + Seq::<NodeM>::empty() =~= nodes_view(out@));
                    assert(nodes_view(out@) =~= nodes_view(out0) + spec_flatten_each(pcv));
                }
            },
            _ => {
                let f = v[k].flatten_paragraphs();
                proof {
                    lemma_nodes_view_push(out@, f);
                }
                out.push(f);
            },
        }
        proof {
            assert(spec_flatten_list(nv) =~= nodes_view(out@) + spec_flatten_list(nv.skip(
                k as int + 1,
            )));
        }
        k = k + 1;
    }
    proof {
        assert(nv.skip(v@.len() as int) =~= Seq::<NodeM>::empty());
        assert(nodes_view(out@) + Seq::<NodeM>::empty() =~= nodes_view(out@));
    }
    out
}

} // verus!
