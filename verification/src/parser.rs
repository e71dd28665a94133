//! The recipe parser: the section state machine over simplified nodes, the
//! ingredient tree builder, and the top-level drive.

use vstd::prelude::*;
use vstd::string::StringSliceAdditionalSpecFns;
use vstd::string::StrSliceExecFns;

use crate::Span;
use crate::ast::{
    Node, NodeKind, NodeKindM, NodeM, clamp_idx, lemma_nodes_view, node_view, nodes_view,
    spec_flatten, spec_nodes_span, spec_parse_node, span_or_zero,
};
use crate::error::{Error, ErrorKind, ErrorM};
use crate::events::{
    SpannedEvent, bytes_to_string, escape_url, href_escaped, lossy_decode, md_events, tokenize,
};
use crate::amount::{parse_amount, spec_amount};
use crate::models::{
    Amount, AmountM, GroupM, Ingredient, IngredientGroup, IngredientM, Recipe, RecipeM,
    amount_matches, group_matches, ingredient_matches, opt_text_matches, recipe_matches,
};
use crate::text::{
    clamp_range, lemma_split_commas_bounds, slice_vec, spec_clamp, spec_nl_trimmed_text,
    spec_slice, spec_split_commas, spec_trim, spec_trimmed_slice, split_commas, trim,
    trim_newlines,
};

verus! {

/// Parser state: the source text as bytes, its event stream, the index of
/// the next unconsumed event, and the byte position reached so far.
pub struct RecipeParser {
    pub src: Vec<u8>,
    pub events: Vec<SpannedEvent>,
    pub idx: usize,
    pub pos: usize,
}

impl RecipeParser {
    pub fn new(src: &str) -> (p: RecipeParser)
        ensures
            p.src@ == src.spec_bytes(),
            p.events@ == md_events(src.spec_bytes()),
            p.idx == 0,
            p.pos == 0,
    {
        let events = tokenize(src);
        let bytes = src.as_bytes_vec();
        RecipeParser { src: bytes, events, idx: 0, pos: 0 }
    }
}

/// The bytes of `src[a..b]`, clamped, as owned text.
fn slice_text(src: &[u8], a: usize, b: usize) -> (r: String)
    ensures
        r@ == lossy_decode(spec_slice(src@, a as int, b as int)),
{
    let c = clamp_range(src.len(), a, b);
    let piece = slice_vec(src, c.0, c.1);
    bytes_to_string(piece.as_slice())
}

/// The bytes of `src[a..b]`, clamped and trimmed, as owned text.
fn trimmed_slice_text(src: &[u8], a: usize, b: usize) -> (r: String)
    ensures
        r@ == lossy_decode(spec_trimmed_slice(src@, a as int, b as int)),
{
    let c = clamp_range(src.len(), a, b);
    let t = trim(src, c.0, c.1);
    let piece = slice_vec(src, t.0, t.1);
    bytes_to_string(piece.as_slice())
}

/// The bytes of `src[a..b]`, clamped and newline-trimmed, as owned text;
/// `None` when nothing is left.
fn nl_trimmed_text(src: &[u8], a: usize, b: usize) -> (r: Option<String>)
    ensures
        opt_text_matches(r, spec_nl_trimmed_text(src@, a as int, b as int)),
{
    let c = clamp_range(src.len(), a, b);
    let t = trim_newlines(src, c.0, c.1);
    if t.0 == t.1 {
        None
    } else {
        let piece = slice_vec(src, t.0, t.1);
        Some(bytes_to_string(piece.as_slice()))
    }
}

/// What the title parser makes of the node at `i`: the first node must be
/// a level-1 heading, whose children's source slice is the title. On
/// success, the index and position after the heading come along.
pub open spec fn spec_title(s: Seq<u8>, evs: Seq<SpannedEvent>, i: int) -> Result<
    (Seq<u8>, int, int),
    ErrorM,
> {
    match spec_parse_node(evs, i) {
        Option::None => Result::Err(ErrorM { kind: ErrorKind::ExpectedTitle, span: Option::None }),
        Option::Some((nm, extra)) => {
            let ni = clamp_idx(evs.len() as int, i + 1 + extra);
            match nm.kind {
                NodeKindM::Heading { level, children } => {
                    if level == 1 {
                        let sp = spec_nodes_span(children);
                        Result::Ok(
                            (spec_slice(s, sp.start as int, sp.end as int), ni, nm.span.end as int),
                        )
                    } else {
                        Result::Err(
                            ErrorM { kind: ErrorKind::ExpectedTitle, span: Option::Some(nm.span) },
                        )
                    }
                },
                _ => Result::Err(
                    ErrorM { kind: ErrorKind::ExpectedTitle, span: Option::Some(nm.span) },
                ),
            }
        },
    }
}

impl RecipeParser {
    /// Parses the document title: the very first node must be a level-1
    /// heading.
    pub fn parse_title(&mut self) -> (r: Result<String, Error>)
        requires
            old(self).idx <= old(self).events@.len(),
        ensures
            final(self).src == old(self).src,
            final(self).events == old(self).events,
            final(self).idx <= final(self).events@.len(),
            match (r, spec_title(old(self).src@, old(self).events@, old(self).idx as int)) {
                (Result::Ok(t), Result::Ok(m)) => t@ == lossy_decode(m.0) && final(self).idx
                    == m.1 && final(self).pos == m.2,
                (Result::Err(e), Result::Err(em)) => e.kind == em.kind && e.span == em.span
                    && e.src_view() is None,
                _ => false,
            },
    {
        match self.parse_node() {
            Some(node) => {
                match &node.kind {
                    NodeKind::Heading { level, children } => {
                        if *level == 1 {
                            let sp = span_or_zero(children);
                            Ok(slice_text(self.src.as_slice(), sp.start, sp.end))
                        } else {
                            Err(Error::new(ErrorKind::ExpectedTitle, Some(node.span)))
                        }
                    },
                    _ => Err(Error::new(ErrorKind::ExpectedTitle, Some(node.span))),
                }
            },
            None => Err(Error::new(ErrorKind::ExpectedTitle, None)),
        }
    }
}

/// Model of the description, tags and yields sections.
pub ghost struct DtyM {
    pub description: Option<Seq<u8>>,
    pub tags: Seq<Seq<u8>>,
    pub yields: Seq<AmountM>,
}

/// The three-state description cursor: no description yet, description
/// running up to a byte position, or frozen at a byte position.
#[derive(Debug, Clone, Copy, PartialEq, Eq, Structural)]
pub enum DescState {
    NotStarted,
    Started(usize),
    Done(usize),
}

/// The tag texts of a tags paragraph: its byte range split at separating
/// commas, each piece trimmed.
pub open spec fn spec_tag_pieces(s: Seq<u8>, a: int, b: int) -> Seq<Seq<u8>> {
    let c = spec_clamp(s.len() as int, a, b);
    spec_split_commas(s, c.0, c.1).map(
        |i: int, p: (int, int)|
            {
                let t = spec_trim(s, p.0, p.1);
                s.subrange(t.0, t.1)
            },
    )
}

/// The yield amounts of a yields paragraph: its byte range split at
/// separating commas, each piece run through the amount grammar.
pub open spec fn spec_yield_pieces(s: Seq<u8>, a: int, b: int) -> Seq<AmountM> {
    let c = spec_clamp(s.len() as int, a, b);
    spec_split_commas(s, c.0, c.1).map(|i: int, p: (int, int)| spec_amount(s, p.0, p.1))
}

/// One step of the section state machine, from the node at `i` on.
/// `ds` is where the description would start; `st`, `tags` and `yields`
/// are the state carried so far. Stops at the first divider; running out
/// of nodes first is an error.
pub open spec fn spec_dty_loop(
    s: Seq<u8>,
    evs: Seq<SpannedEvent>,
    i: int,
    ds: int,
    st: DescState,
    tags: Option<Seq<Seq<u8>>>,
    yields: Option<Seq<AmountM>>,
) -> Result<(DtyM, int, int), ErrorM>
    decreases evs.len() - i,
{
    if i < 0 || i >= evs.len() {
        Result::Err(ErrorM { kind: ErrorKind::ExpectedHorizontalLine, span: Option::None })
    } else {
        match spec_parse_node(evs, i) {
            Option::None => Result::Err(
                ErrorM { kind: ErrorKind::ExpectedHorizontalLine, span: Option::None },
            ),
            Option::Some((nm, extra)) => {
                let ni = clamp_idx(evs.len() as int, i + 1 + extra);
                match nm.kind {
                    NodeKindM::HorizontalLine => {
                        let st2 = if st is Started {
                            DescState::Done(nm.span.start)
                        } else {
                            st
                        };
                        let description = match st2 {
                            DescState::NotStarted => Option::<Seq<u8>>::None,
                            DescState::Started(_) => spec_nl_trimmed_text(s, ds, s.len() as int),
                            DescState::Done(e) => spec_nl_trimmed_text(s, ds, e as int),
                        };
                        Result::Ok(
                            (
                                DtyM {
                                    description,
                                    tags: match tags {
                                        Option::Some(t) => t,
                                        Option::None => Seq::empty(),
                                    },
                                    yields: match yields {
                                        Option::Some(y) => y,
                                        Option::None => Seq::empty(),
                                    },
                                },
                                ni,
                                nm.span.end as int,
                            ),
                        )
                    },
                    NodeKindM::Paragraph(children) => {
                        if children.len() == 1 && children[0].kind is Emphasis && children[0].kind
                            ->Emphasis_0.len() == 1 {
                            if tags is Some {
                                Result::Err(
                                    ErrorM {
                                        kind: ErrorKind::MultipleTagsSections,
                                        span: Option::Some(children[0].span),
                                    },
                                )
                            } else {
                                let st2 = if st is Started {
                                    DescState::Done(st->Started_0)
                                } else {
                                    st
                                };
                                let csp = spec_nodes_span(children[0].kind->Emphasis_0);
                                spec_dty_loop(
                                    s,
                                    evs,
                                    ni,
                                    ds,
                                    st2,
                                    Option::Some(
                                        spec_tag_pieces(s, csp.start as int, csp.end as int),
                                    ),
                                    yields,
                                )
                            }
                        } else if children.len() == 1 && children[0].kind is Strong
                            && children[0].kind->Strong_0.len() == 1 {
                            if yields is Some {
                                Result::Err(
                                    ErrorM {
                                        kind: ErrorKind::MultipleYieldsSections,
                                        span: Option::Some(children[0].span),
                                    },
                                )
                            } else {
                                let st2 = if st is Started {
                                    DescState::Done(st->Started_0)
                                } else {
                                    st
                                };
                                let csp = spec_nodes_span(children[0].kind->Strong_0);
                                spec_dty_loop(
                                    s,
                                    evs,
                                    ni,
                                    ds,
                                    st2,
                                    tags,
                                    Option::Some(
                                        spec_yield_pieces(s, csp.start as int, csp.end as int),
                                    ),
                                )
                            }
                        } else {
                            let sp = if children.len() == 0 {
                                nm.span
                            } else {
                                spec_nodes_span(children)
                            };
                            if st is Done {
                                Result::Err(
                                    ErrorM {
                                        kind: ErrorKind::MultipleDescriptionSections,
                                        span: Option::Some(sp),
                                    },
                                )
                            } else {
                                spec_dty_loop(
                                    s,
                                    evs,
                                    ni,
                                    ds,
                                    DescState::Started(sp.end),
                                    tags,
                                    yields,
                                )
                            }
                        }
                    },
                    _ => {
                        if st is Done {
                            Result::Err(
                                ErrorM {
                                    kind: ErrorKind::MultipleDescriptionSections,
                                    span: Option::Some(nm.span),
                                },
                            )
                        } else {
                            spec_dty_loop(
                                s,
                                evs,
                                ni,
                                ds,
                                DescState::Started(nm.span.end),
                                tags,
                                yields,
                            )
                        }
                    },
                }
            },
        }
    }
}

/// What the section state machine makes of the nodes from `i` on, the
/// description starting at `pos`.
pub open spec fn spec_dty(s: Seq<u8>, evs: Seq<SpannedEvent>, i: int, pos: int) -> Result<
    (DtyM, int, int),
    ErrorM,
> {
    spec_dty_loop(s, evs, i, pos, DescState::NotStarted, Option::None, Option::None)
}

/// Materializes the tag list of a tags paragraph span.
fn tags_from_span(src: &[u8], a: usize, b: usize) -> (r: Vec<String>)
    ensures
        r@.len() == spec_tag_pieces(src@, a as int, b as int).len(),
        forall|i: int|
            0 <= i < r@.len() ==> (#[trigger] r@[i])@ == lossy_decode(
                spec_tag_pieces(src@, a as int, b as int)[i],
            ),
{
    let c = clamp_range(src.len(), a, b);
    let pieces = split_commas(src, c.0, c.1);
    proof {
        lemma_split_commas_bounds(src@, c.0 as int, c.1 as int);
    }
    let ghost m = spec_split_commas(src@, c.0 as int, c.1 as int);
    let ghost tp = spec_tag_pieces(src@, a as int, b as int);
    let mut out: Vec<String> = Vec::new();
    let mut k: usize = 0;
    while k < pieces.len()
        invariant
            k <= pieces@.len(),
            out@.len() == k,
            m == spec_split_commas(src@, c.0 as int, c.1 as int),
            tp == spec_tag_pieces(src@, a as int, b as int),
            (c.0 as int, c.1 as int) == spec_clamp(src@.len() as int, a as int, b as int),
            c.0 <= c.1 <= src@.len(),
            pieces@.len() == m.len(),
            forall|i: int|
                0 <= i < m.len() ==> (#[trigger] pieces@[i]).0 == m[i].0 && pieces@[i].1 == m[i].1,
            forall|i: int| 0 <= i < m.len() ==> c.0 <= (#[trigger] m[i]).0 <= m[i].1 <= c.1,
            tp.len() == m.len(),
            forall|i: int| 0 <= i < k ==> (#[trigger] out@[i])@ == lossy_decode(tp[i]),
        decreases pieces@.len() - k,
    {
        let p = pieces[k];
        let t = trim(src, p.0, p.1);
        let piece = slice_vec(src, t.0, t.1);
        let text = bytes_to_string(piece.as_slice());
        proof {
            assert(tp[k as int] == {
                let t2 = spec_trim(src@, m[k as int].0, m[k as int].1);
                src@.subrange(t2.0, t2.1)
            });
        }
        out.push(text);
        k = k + 1;
    }
    out
}

/// Materializes the yield amounts of a yields paragraph span.
fn yields_from_span(src: &[u8], a: usize, b: usize) -> (r: Vec<Amount>)
    ensures
        r@.len() == spec_yield_pieces(src@, a as int, b as int).len(),
        forall|i: int|
            0 <= i < r@.len() ==> amount_matches(
                #[trigger] r@[i],
                spec_yield_pieces(src@, a as int, b as int)[i],
            ),
{
    let c = clamp_range(src.len(), a, b);
    let pieces = split_commas(src, c.0, c.1);
    let ghost m = spec_split_commas(src@, c.0 as int, c.1 as int);
    let ghost yp = spec_yield_pieces(src@, a as int, b as int);
    let mut out: Vec<Amount> = Vec::new();
    let mut k: usize = 0;
    while k < pieces.len()
        invariant
            k <= pieces@.len(),
            out@.len() == k,
            m == spec_split_commas(src@, c.0 as int, c.1 as int),
            yp == spec_yield_pieces(src@, a as int, b as int),
            (c.0 as int, c.1 as int) == spec_clamp(src@.len() as int, a as int, b as int),
            pieces@.len() == m.len(),
            forall|i: int|
                0 <= i < m.len() ==> (#[trigger] pieces@[i]).0 == m[i].0 && pieces@[i].1 == m[i].1,
            yp.len() == m.len(),
            forall|i: int| 0 <= i < k ==> amount_matches(#[trigger] out@[i], yp[i]),
        decreases pieces@.len() - k,
    {
        let p = pieces[k];
        let am = parse_amount(src, p.0, p.1);
        proof {
            assert(yp[k as int] == spec_amount(src@, m[k as int].0, m[k as int].1));
        }
        out.push(am);
        k = k + 1;
    }
    out
}

impl RecipeParser {
    /// Runs the section state machine: consumes nodes up to and including
    /// the first divider, and returns the description, the tag list and
    /// the yield amounts.
    #[verifier::loop_isolation(false)]
    pub fn parse_description_tags_yields(&mut self) -> (r: Result<
        (Option<String>, Vec<String>, Vec<Amount>),
        Error,
    >)
        requires
            old(self).idx <= old(self).events@.len(),
        ensures
            final(self).src == old(self).src,
            final(self).events == old(self).events,
            final(self).idx <= final(self).events@.len(),
            match (r, spec_dty(
                old(self).src@,
                old(self).events@,
                old(self).idx as int,
                old(self).pos as int,
            )) {
                (Result::Ok(t), Result::Ok(m)) => {
                    &&& opt_text_matches(t.0, m.0.description)
                    &&& t.1@.len() == m.0.tags.len()
                    &&& forall|i: int|
                        0 <= i < m.0.tags.len() ==> (#[trigger] t.1@[i])@ == lossy_decode(
                            m.0.tags[i],
                        )
                    &&& t.2@.len() == m.0.yields.len()
                    &&& forall|i: int|
                        0 <= i < m.0.yields.len() ==> amount_matches(
                            #[trigger] t.2@[i],
                            m.0.yields[i],
                        )
                    &&& final(self).idx == m.1
                    &&& final(self).pos == m.2
                },
                (Result::Err(e), Result::Err(em)) => e.kind == em.kind && e.span == em.span
                    && e.src_view() is None,
                _ => false,
            },
    {
        let ghost s = old(self).src@;
        let ghost evs = old(self).events@;
        let ghost i0 = old(self).idx as int;
        let ghost ds = old(self).pos as int;
        let desc_start = self.pos;
        let mut st = DescState::NotStarted;
        let mut tags: Option<Vec<String>> = None;
        let mut yields: Option<Vec<Amount>> = None;
        let ghost mut tags_m: Option<Seq<Seq<u8>>> = Option::None;
        let ghost mut yields_m: Option<Seq<AmountM>> = Option::None;
        let ghost src0 = self.src;
        let ghost events0 = self.events;
        proof {
            assert(src0 == old(self).src);
            assert(events0 == old(self).events);
        }
        loop
            invariant
                self.src == src0,
                self.events == events0,
                self.src@ == s,
                self.events@ == evs,
                self.idx <= evs.len(),
                desc_start as int == ds,
                spec_dty(s, evs, i0, ds) == spec_dty_loop(
                    s,
                    evs,
                    self.idx as int,
                    ds,
                    st,
                    tags_m,
                    yields_m,
                ),
                match (tags, tags_m) {
                    (Option::None, Option::None) => true,
                    (Option::Some(t), Option::Some(tm)) => t@.len() == tm.len() && forall|i: int|
                        0 <= i < tm.len() ==> (#[trigger] t@[i])@ == lossy_decode(tm[i]),
                    _ => false,
                },
                match (yields, yields_m) {
                    (Option::None, Option::None) => true,
                    (Option::Some(y), Option::Some(ym)) => y@.len() == ym.len() && forall|i: int|
                        0 <= i < ym.len() ==> amount_matches(#[trigger] y@[i], ym[i]),
                    _ => false,
                },
            decreases evs.len() - self.idx,
        {
            let ghost ip = self.idx as int;
            let ghost st0 = st;
            let ghost tm0 = tags_m;
            let ghost ym0 = yields_m;
            let ghost step = spec_dty_loop(s, evs, ip, ds, st0, tm0, ym0);
            let node = match self.parse_node() {
                Some(n) => n,
                None => {
                    proof {
                        assert(step == Result::<(DtyM, int, int), ErrorM>::Err(
                            ErrorM { kind: ErrorKind::ExpectedHorizontalLine, span: Option::None },
                        ));
                    }
                    return Err(Error::new(ErrorKind::ExpectedHorizontalLine, None));
                },
            };
            proof {
                assert(node_view(node) == spec_parse_node(evs, ip)->Some_0.0);
            }
            match &node.kind {
                NodeKind::HorizontalLine => {
                    let st2 = match st {
                        DescState::Started(_) => DescState::Done(node.span.start),
                        other => other,
                    };
                    let description = match st2 {
                        DescState::NotStarted => None,
                        DescState::Started(_) => nl_trimmed_text(
                            self.src.as_slice(),
                            desc_start,
                            self.src.len(),
                        ),
                        DescState::Done(e) => nl_trimmed_text(self.src.as_slice(), desc_start, e),
                    };
                    let tags_v = match tags {
                        Some(t) => t,
                        None => Vec::new(),
                    };
                    let yields_v = match yields {
                        Some(y) => y,
                        None => Vec::new(),
                    };
                    proof {
                        assert(step == Result::<(DtyM, int, int), ErrorM>::Ok(
                            (
                                DtyM {
                                    description: match st2 {
                                        DescState::NotStarted => Option::<Seq<u8>>::None,
                                        DescState::Started(_) => spec_nl_trimmed_text(
                                            s,
                                            ds,
                                            s.len() as int,
                                        ),
                                        DescState::Done(e) => spec_nl_trimmed_text(s, ds, e as int),
                                    },
                                    tags: match tm0 {
                                        Option::Some(t) => t,
                                        Option::None => Seq::empty(),
                                    },
                                    yields: match ym0 {
                                        Option::Some(y) => y,
                                        Option::None => Seq::empty(),
                                    },
                                },
                                self.idx as int,
                                self.pos as int,
                            ),
                        ));
                    }
                    return Ok((description, tags_v, yields_v));
                },
                NodeKind::Paragraph(children) => {
                    proof {
                        lemma_nodes_view(children@);
                    }
                    let mut handled = false;
                    if children.len() == 1 {
                        match &children[0].kind {
                            NodeKind::Emphasis(ec) => {
                                proof {
                                    lemma_nodes_view(ec@);
                                }
                                if ec.len() == 1 {
                                    if tags.is_some() {
                                        return Err(
                                            Error::new(
                                                ErrorKind::MultipleTagsSections,
                                                Some(children[0].span),
                                            ),
                                        );
                                    }
                                    st = match st {
                                        DescState::Started(e) => DescState::Done(e),
                                        other => other,
                                    };
                                    let csp = span_or_zero(ec);
                                    let t = tags_from_span(self.src.as_slice(), csp.start, csp.end);
                                    proof {
                                        tags_m = Option::Some(
                                            spec_tag_pieces(s, csp.start as int, csp.end as int),
                                        );
                                    }
                                    tags = Some(t);
                                    handled = true;
                                    proof {
                                        assert(step == spec_dty_loop(
                                            s,
                                            evs,
                                            self.idx as int,
                                            ds,
                                            st,
                                            tags_m,
                                            yields_m,
                                        ));
                                    }
                                }
                            },
                            NodeKind::Strong(sc) => {
                                proof {
                                    lemma_nodes_view(sc@);
                                }
                                if sc.len() == 1 {
                                    if yields.is_some() {
                                        return Err(
                                            Error::new(
                                                ErrorKind::MultipleYieldsSections,
                                                Some(children[0].span),
                                            ),
                                        );
                                    }
                                    st = match st {
                                        DescState::Started(e) => DescState::Done(e),
                                        other => other,
                                    };
                                    let csp = span_or_zero(sc);
                                    let y = yields_from_span(
                                        self.src.as_slice(),
                                        csp.start,
                                        csp.end,
                                    );
                                    proof {
                                        yields_m = Option::Some(
                                            spec_yield_pieces(s, csp.start as int, csp.end as int),
                                        );
                                    }
                                    yields = Some(y);
                                    handled = true;
                                    proof {
                                        assert(step == spec_dty_loop(
                                            s,
                                            evs,
                                            self.idx as int,
                                            ds,
                                            st,
                                            tags_m,
                                            yields_m,
                                        ));
                                    }
                                }
                            },
                            _ => {},
                        }
                    }
                    if !handled {
                        let sp = if children.len() == 0 {
                            node.span
                        } else {
                            span_or_zero(children)
                        };
                        match st {
                            DescState::Done(_) => {
                                return Err(
                                    Error::new(ErrorKind::MultipleDescriptionSections, Some(sp)),
                                );
                            },
                            _ => {
                                st = DescState::Started(sp.end);
                                proof {
                                    assert(step == spec_dty_loop(
                                        s,
                                        evs,
                                        self.idx as int,
                                        ds,
                                        st,
                                        tags_m,
                                        yields_m,
                                    ));
                                }
                            },
                        }
                    }
                },
                _ => {
                    match st {
                        DescState::Done(_) => {
                            return Err(
                                Error::new(
                                    ErrorKind::MultipleDescriptionSections,
                                    Some(node.span),
                                ),
                            );
                        },
                        _ => {
                            st = DescState::Started(node.span.end);
                            proof {
                                assert(step == spec_dty_loop(
                                    s,
                                    evs,
                                    self.idx as int,
                                    ds,
                                    st,
                                    tags_m,
                                    yields_m,
                                ));
                            }
                        },
                    }
                },
            }
        }
    }
}


/// The child list an ingredient shape is read from; leaf nodes have none.
pub open spec fn spec_children_of(k: NodeKindM) -> Seq<NodeM> {
    match k {
        NodeKindM::Heading { children, .. } => children,
        NodeKindM::Paragraph(c) => c,
        NodeKindM::Emphasis(c) => c,
        NodeKindM::Strong(c) => c,
        NodeKindM::List(c) => c,
        NodeKindM::ListItem(c) => c,
        NodeKindM::Link { children, .. } => children,
        _ => Seq::empty(),
    }
}

/// An ingredient whose amount text and name both come from an emphasis
/// followed by a link: the link's text is the name and its destination,
/// escaped, is kept. A link without text has no extractable name.
pub open spec fn spec_linked(s: Seq<u8>, amount_children: Seq<NodeM>, link: NodeM) -> Result<
    IngredientM,
    ErrorM,
> {
    let lc = link.kind->Link_children;
    if lc.len() == 0 {
        Result::Err(ErrorM { kind: ErrorKind::EmptyIngredient, span: Option::Some(link.span) })
    } else {
        let asp = spec_nodes_span(amount_children);
        let nsp = spec_nodes_span(lc);
        Result::Ok(
            IngredientM {
                amount: Option::Some(spec_amount(s, asp.start as int, asp.end as int)),
                name: spec_trimmed_slice(s, nsp.start as int, nsp.end as int),
                link: Option::Some(href_escaped(link.kind->Link_destination)),
            },
        )
    }
}

/// An ingredient that is one link and nothing else: name and destination
/// from the link, no amount.
pub open spec fn spec_linked_plain(s: Seq<u8>, link: NodeM) -> Result<IngredientM, ErrorM> {
    let lc = link.kind->Link_children;
    if lc.len() == 0 {
        Result::Err(ErrorM { kind: ErrorKind::EmptyIngredient, span: Option::Some(link.span) })
    } else {
        let nsp = spec_nodes_span(lc);
        Result::Ok(
            IngredientM {
                amount: Option::None,
                name: spec_trimmed_slice(s, nsp.start as int, nsp.end as int),
                link: Option::Some(href_escaped(link.kind->Link_destination)),
            },
        )
    }
}

/// What the ingredient shape classifier makes of one (already flattened)
/// node, matched against the shapes in order: no children or a lone
/// emphasis is no ingredient; a lone paragraph is unwrapped; an emphasis
/// before a link takes the amount from the emphasis and the name from the
/// link, with one literal space allowed between; an emphasis before
/// anything else names the rest; a lone link names itself; anything else
/// is a bare name.
pub open spec fn spec_ingredient(s: Seq<u8>, n: NodeM) -> Result<IngredientM, ErrorM>
    decreases n,
{
    let children = spec_children_of(n.kind);
    if children.len() == 0 {
        Result::Err(ErrorM { kind: ErrorKind::EmptyIngredient, span: Option::Some(n.span) })
    } else if children.len() == 1 && children[0].kind is Emphasis {
        Result::Err(ErrorM { kind: ErrorKind::EmptyIngredient, span: Option::Some(n.span) })
    } else if children.len() == 1 && children[0].kind is Paragraph {
        spec_ingredient(s, children[0])
    } else if children.len() == 2 && children[0].kind is Emphasis && children[1].kind is Link {
        spec_linked(s, children[0].kind->Emphasis_0, children[1])
    } else if children.len() == 3 && children[0].kind is Emphasis && children[1].kind is Text
        && children[1].kind->Text_0 == " "@ && children[2].kind is Link {
        spec_linked(s, children[0].kind->Emphasis_0, children[2])
    } else if children[0].kind is Emphasis {
        let asp = spec_nodes_span(children[0].kind->Emphasis_0);
        let nsp = spec_nodes_span(children.drop_first());
        Result::Ok(
            IngredientM {
                amount: Option::Some(spec_amount(s, asp.start as int, asp.end as int)),
                name: spec_trimmed_slice(s, nsp.start as int, nsp.end as int),
                link: Option::None,
            },
        )
    } else if children.len() == 1 && children[0].kind is Link {
        spec_linked_plain(s, children[0])
    } else {
        let nsp = spec_nodes_span(children);
        Result::Ok(
            IngredientM {
                amount: Option::None,
                name: spec_trimmed_slice(s, nsp.start as int, nsp.end as int),
                link: Option::None,
            },
        )
    }
}

/// Builds the linked-ingredient case: `amount_children` drive the amount
/// grammar, the link's text is the name.
#[verifier::loop_isolation(false)]
fn parse_linked(src: &[u8], amount_children: &Vec<Node>, link_node: &Node) -> (r: Result<
    Ingredient,
    Error,
>)
    requires
        node_view(*link_node).kind is Link,
    ensures
        match (r, spec_linked(src@, nodes_view(amount_children@), node_view(*link_node))) {
            (Result::Ok(x), Result::Ok(m)) => ingredient_matches(x, m),
            (Result::Err(e), Result::Err(em)) => e.kind == em.kind && e.span == em.span
                && e.src_view() is None,
            _ => false,
        },
{
    match &link_node.kind {
        NodeKind::Link { destination, children } => {
            proof {
                lemma_nodes_view(children@);
            }
            if children.len() == 0 {
                return Err(Error::new(ErrorKind::EmptyIngredient, Some(link_node.span)));
            }
            let asp = span_or_zero(amount_children);
            let nsp = span_or_zero(children);
            let amount = parse_amount(src, asp.start, asp.end);
            let name = trimmed_slice_text(src, nsp.start, nsp.end);
            let link = escape_url(destination.as_str());
            Ok(Ingredient { amount: Some(amount), name, link: Some(link) })
        },
        _ => Err(Error::new(ErrorKind::EmptyIngredient, Some(link_node.span))),
    }
}

/// Builds the lone-link case: the link's text is the name, no amount.
#[verifier::loop_isolation(false)]
fn parse_linked_plain(src: &[u8], link_node: &Node) -> (r: Result<Ingredient, Error>)
    requires
        node_view(*link_node).kind is Link,
    ensures
        match (r, spec_linked_plain(src@, node_view(*link_node))) {
            (Result::Ok(x), Result::Ok(m)) => ingredient_matches(x, m),
            (Result::Err(e), Result::Err(em)) => e.kind == em.kind && e.span == em.span
                && e.src_view() is None,
            _ => false,
        },
{
    match &link_node.kind {
        NodeKind::Link { destination, children } => {
            proof {
                lemma_nodes_view(children@);
            }
            if children.len() == 0 {
                return Err(Error::new(ErrorKind::EmptyIngredient, Some(link_node.span)));
            }
            let nsp = span_or_zero(children);
            let name = trimmed_slice_text(src, nsp.start, nsp.end);
            let link = escape_url(destination.as_str());
            Ok(Ingredient { amount: None, name, link: Some(link) })
        },
        _ => Err(Error::new(ErrorKind::EmptyIngredient, Some(link_node.span))),
    }
}

/// Parses one (already flattened) node as an ingredient entry.
#[verifier::loop_isolation(false)]
#[verifier::rlimit(60)]
pub fn parse_ingredient(src: &[u8], node: &Node) -> (r: Result<Ingredient, Error>)
    ensures
        match (r, spec_ingredient(src@, node_view(*node))) {
            (Result::Ok(x), Result::Ok(m)) => ingredient_matches(x, m),
            (Result::Err(e), Result::Err(em)) => e.kind == em.kind && e.span == em.span
                && e.src_view() is None,
            _ => false,
        },
    decreases *node,
{
    let children: &Vec<Node> = match &node.kind {
        NodeKind::Heading { children, .. } => children,
        NodeKind::Paragraph(c) => c,
        NodeKind::Emphasis(c) => c,
        NodeKind::Strong(c) => c,
        NodeKind::List(c) => c,
        NodeKind::ListItem(c) => c,
        NodeKind::Link { children, .. } => children,
        _ => {
            return Err(Error::new(ErrorKind::EmptyIngredient, Some(node.span)));
        },
    };
    proof {
        lemma_nodes_view(children@);
    }
    if children.len() == 0 {
        return Err(Error::new(ErrorKind::EmptyIngredient, Some(node.span)));
    }
    if children.len() == 1 {
        if matches!(&children[0].kind, NodeKind::Emphasis(_)) {
            return Err(Error::new(ErrorKind::EmptyIngredient, Some(node.span)));
        }
        if matches!(&children[0].kind, NodeKind::Paragraph(_)) {
            proof {
                crate::ast::lemma_node_decreases_to_child(*node, 0);
                assert(children@[0] == crate::ast::children_of_kind(node.kind)[0]);
            }
            return parse_ingredient(src, &children[0]);
        }
    }
    if children.len() == 2 && matches!(&children[0].kind, NodeKind::Emphasis(_)) && matches!(
        &children[1].kind,
        NodeKind::Link { .. },
    ) {
        match &children[0].kind {
            NodeKind::Emphasis(ac) => {
                return parse_linked(src, ac, &children[1]);
            },
            _ => {},
        }
    }
    if children.len() == 3 && matches!(&children[0].kind, NodeKind::Emphasis(_)) && matches!(
        &children[2].kind,
        NodeKind::Link { .. },
    ) {
        let mid_is_space = match &children[1].kind {
            NodeKind::Text(t) => {
                let space = String::from_str(" ");
                *t == space
            },
            _ => false,
        };
        if mid_is_space {
            match &children[0].kind {
                NodeKind::Emphasis(ac) => {
                    return parse_linked(src, ac, &children[2]);
                },
                _ => {},
            }
        }
    }
    if matches!(&children[0].kind, NodeKind::Emphasis(_)) {
        match &children[0].kind {
            NodeKind::Emphasis(ac) => {
                let asp = span_or_zero(ac);
                let nsp = Span {
                    start: children[1].span.start,
                    end: children[children.len() - 1].span.end,
                };
                proof {
                    lemma_nodes_view(children@);
                    assert(nodes_view(children@).drop_first().len() == children@.len() - 1);
                    assert(nodes_view(children@).drop_first()[0] == nodes_view(children@)[1]);
                    assert(nodes_view(children@).drop_first()[children@.len() - 2]
                        == nodes_view(children@)[children@.len() - 1]);
                }
                let amount = parse_amount(src, asp.start, asp.end);
                let name = trimmed_slice_text(src, nsp.start, nsp.end);
                return Ok(Ingredient { amount: Some(amount), name, link: None });
            },
            _ => {},
        }
    }
    if children.len() == 1 && matches!(&children[0].kind, NodeKind::Link { .. }) {
        return parse_linked_plain(src, &children[0]);
    }
    let nsp = span_or_zero(children);
    let name = trimmed_slice_text(src, nsp.start, nsp.end);
    Ok(Ingredient { amount: None, name, link: None })
}

/// What a list's items become: each flattened and classified in order;
/// the first failure aborts.
pub open spec fn spec_list_ingredients(s: Seq<u8>, items: Seq<NodeM>) -> Result<
    Seq<IngredientM>,
    ErrorM,
>
    decreases items.len(),
{
    if items.len() == 0 {
        Result::Ok(Seq::empty())
    } else {
        match spec_ingredient(s, spec_flatten(items[0])) {
            Result::Err(e) => Result::Err(e),
            Result::Ok(x) => match spec_list_ingredients(s, items.drop_first()) {
                Result::Err(e) => Result::Err(e),
                Result::Ok(rest) => Result::Ok(seq![x] + rest),
            },
        }
    }
}

/// Parses every item of a list node into an ingredient entry.
#[verifier::loop_isolation(false)]
fn parse_list_ingredients(src: &[u8], items: &Vec<Node>) -> (r: Result<Vec<Ingredient>, Error>)
    ensures
        match (r, spec_list_ingredients(src@, nodes_view(items@))) {
            (Result::Ok(v), Result::Ok(m)) => v@.len() == m.len() && forall|i: int|
                0 <= i < m.len() ==> ingredient_matches(#[trigger] v@[i], m[i]),
            (Result::Err(e), Result::Err(em)) => e.kind == em.kind && e.span == em.span
                && e.src_view() is None,
            _ => false,
        },
{
    proof {
        lemma_nodes_view(items@);
    }
    let ghost iv = nodes_view(items@);
    let mut out: Vec<Ingredient> = Vec::new();
    proof {
        assert(iv.skip(0) =~= iv);
    }
    let mut k: usize = 0;
    while k < items.len()
        invariant
            k <= items@.len(),
            out@.len() == k,
            iv == nodes_view(items@),
            ({
                let total = spec_list_ingredients(src@, iv);
                let rest = spec_list_ingredients(src@, iv.skip(k as int));
                match (total, rest) {
                    (Result::Ok(tm), Result::Ok(rm)) => tm.len() == k + rm.len() && (forall|i: int|
                        0 <= i < k ==> ingredient_matches(#[trigger] out@[i], tm[i])) && (forall|
                        i: int,
                    |
                        0 <= i < rm.len() ==> #[trigger] rm[i] == tm[k + i]),
                    (Result::Err(e1), Result::Err(e2)) => e1 == e2,
                    _ => false,
                }
            }),
        decreases items@.len() - k,
    {
        proof {
            assert(iv.skip(k as int)[0] == iv[k as int]);
            assert(iv.skip(k as int).drop_first() =~= iv.skip(k as int + 1));
        }
        let flat = items[k].flatten_paragraphs();
        proof {
            assert(node_view(flat) == spec_flatten(iv[k as int]));
        }
        match parse_ingredient(src, &flat) {
            Err(e) => {
                return Err(e);
            },
            Ok(x) => {
                out.push(x);
            },
        }
        proof {
            let total = spec_list_ingredients(src@, iv);
            let rest = spec_list_ingredients(src@, iv.skip(k as int));
            let rest2 = spec_list_ingredients(src@, iv.skip(k as int + 1));
            if rest is Err {
                assert(rest2 is Err && rest2->Err_0 == rest->Err_0);
            } else {
                let tm = total->Ok_0;
                let rm = rest->Ok_0;
                let rm2 = rest2->Ok_0;
                assert(rm[0] == tm[k as int]);
                assert(out@[k as int] == out@.last());
                assert forall|i: int| 0 <= i < rm2.len() implies #[trigger] rm2[i] == tm[k + 1
                    + i] by {
                    assert(rm[i + 1] == tm[k as int + (i + 1)]);
                }
            }
        }
        k = k + 1;
    }
    proof {
        assert(iv.skip(items@.len() as int) =~= Seq::<NodeM>::empty());
    }
    Ok(out)
}


/// What terminating the ingredient section yields: a still-open group that
/// never received a list is an error blamed on its heading; a section that
/// produced no group at all is an error with no span; otherwise the groups
/// collected, with the index and position reached.
pub open spec fn spec_finish_groups(
    open_group: Option<(Seq<u8>, Span)>,
    groups: Seq<GroupM>,
    i: int,
    pos: int,
) -> Result<(Seq<GroupM>, int, int), ErrorM> {
    match open_group {
        Option::Some((t, hspan)) => Result::Err(
            ErrorM { kind: ErrorKind::EmptyIngredientGroup, span: Option::Some(hspan) },
        ),
        Option::None => {
            if groups.len() == 0 {
                Result::Err(ErrorM { kind: ErrorKind::EmptyIngredientGroup, span: Option::None })
            } else {
                Result::Ok((groups, i, pos))
            }
        },
    }
}

/// One step of the ingredient tree builder, from the node at `i` on: a
/// heading opens a group (two headings in a row is an error), a list fills
/// and closes the group at hand or an anonymous one, a divider or the end
/// of input terminates the section, and anything else is an error.
pub open spec fn spec_ingredients_loop(
    s: Seq<u8>,
    evs: Seq<SpannedEvent>,
    i: int,
    pos: int,
    open_group: Option<(Seq<u8>, Span)>,
    groups: Seq<GroupM>,
) -> Result<(Seq<GroupM>, int, int), ErrorM>
    decreases evs.len() - i,
{
    if i < 0 || i >= evs.len() {
        spec_finish_groups(open_group, groups, i, pos)
    } else {
        match spec_parse_node(evs, i) {
            Option::None => spec_finish_groups(open_group, groups, i, pos),
            Option::Some((nm, extra)) => {
                let ni = clamp_idx(evs.len() as int, i + 1 + extra);
                match nm.kind {
                    NodeKindM::HorizontalLine => spec_finish_groups(
                        open_group,
                        groups,
                        ni,
                        nm.span.end as int,
                    ),
                    NodeKindM::Heading { level, children } => {
                        match open_group {
                            Option::Some((t, hspan)) => Result::Err(
                                ErrorM {
                                    kind: ErrorKind::EmptyIngredientGroup,
                                    span: Option::Some(hspan),
                                },
                            ),
                            Option::None => {
                                let sp = spec_nodes_span(children);
                                spec_ingredients_loop(
                                    s,
                                    evs,
                                    ni,
                                    nm.span.end as int,
                                    Option::Some(
                                        (spec_slice(s, sp.start as int, sp.end as int), nm.span),
                                    ),
                                    groups,
                                )
                            },
                        }
                    },
                    NodeKindM::List(items) => {
                        match spec_list_ingredients(s, items) {
                            Result::Err(e) => Result::Err(e),
                            Result::Ok(ings) => {
                                let g = GroupM {
                                    title: match open_group {
                                        Option::Some((t, _)) => Option::Some(t),
                                        Option::None => Option::None,
                                    },
                                    ingredients: ings,
                                };
                                spec_ingredients_loop(
                                    s,
                                    evs,
                                    ni,
                                    nm.span.end as int,
                                    Option::None,
                                    groups.push(g),
                                )
                            },
                        }
                    },
                    _ => Result::Err(
                        ErrorM {
                            kind: ErrorKind::ExpectedHorizontalLine,
                            span: Option::Some(nm.span),
                        },
                    ),
                }
            },
        }
    }
}

/// What the ingredient tree builder makes of the nodes from `i` on.
pub open spec fn spec_ingredients(s: Seq<u8>, evs: Seq<SpannedEvent>, i: int, pos: int) -> Result<
    (Seq<GroupM>, int, int),
    ErrorM,
> {
    spec_ingredients_loop(s, evs, i, pos, Option::None, Seq::empty())
}

impl RecipeParser {
    /// Builds the ingredient group list from the nodes between the first
    /// divider and the second one (or the end of input).
    #[verifier::loop_isolation(false)]
    pub fn parse_all_ingredients(&mut self) -> (r: Result<Vec<IngredientGroup>, Error>)
        requires
            old(self).idx <= old(self).events@.len(),
        ensures
            final(self).src == old(self).src,
            final(self).events == old(self).events,
            final(self).idx <= final(self).events@.len(),
            match (r, spec_ingredients(
                old(self).src@,
                old(self).events@,
                old(self).idx as int,
                old(self).pos as int,
            )) {
                (Result::Ok(v), Result::Ok(m)) => {
                    &&& v@.len() == m.0.len()
                    &&& forall|i: int|
                        0 <= i < m.0.len() ==> group_matches(#[trigger] v@[i], m.0[i])
                    &&& final(self).idx == m.1
                    &&& final(self).pos == m.2
                },
                (Result::Err(e), Result::Err(em)) => e.kind == em.kind && e.span == em.span
                    && e.src_view() is None,
                _ => false,
            },
    {
        let ghost s = old(self).src@;
        let ghost evs = old(self).events@;
        let ghost i0 = old(self).idx as int;
        let ghost p0 = old(self).pos as int;
        let mut open_group: Option<(String, Span)> = None;
        let mut groups: Vec<IngredientGroup> = Vec::new();
        let ghost mut open_m: Option<(Seq<u8>, Span)> = Option::None;
        let ghost mut groups_m: Seq<GroupM> = Seq::empty();
        loop
            invariant
                self.src == old(self).src,
                self.events == old(self).events,
                self.idx <= evs.len(),
                spec_ingredients(s, evs, i0, p0) == spec_ingredients_loop(
                    s,
                    evs,
                    self.idx as int,
                    self.pos as int,
                    open_m,
                    groups_m,
                ),
                match (open_group, open_m) {
                    (Option::None, Option::None) => true,
                    (Option::Some(og), Option::Some(om)) => og.0@ == lossy_decode(om.0) && og.1
                        == om.1,
                    _ => false,
                },
                groups@.len() == groups_m.len(),
                forall|i: int|
                    0 <= i < groups_m.len() ==> group_matches(#[trigger] groups@[i], groups_m[i]),
            decreases evs.len() - self.idx,
        {
            let ghost ip = self.idx as int;
            let ghost pp = self.pos as int;
            let ghost open0 = open_m;
            let ghost groups0 = groups_m;
            let ghost step = spec_ingredients_loop(s, evs, ip, pp, open0, groups0);
            let node = match self.parse_node() {
                Some(n) => n,
                None => {
                    proof {
                        assert(step == spec_finish_groups(open0, groups0, ip, pp));
                    }
                    match open_group {
                        Some(og) => {
                            return Err(Error::new(ErrorKind::EmptyIngredientGroup, Some(og.1)));
                        },
                        None => {
                            if groups.len() == 0 {
                                return Err(Error::new(ErrorKind::EmptyIngredientGroup, None));
                            } else {
                                return Ok(groups);
                            }
                        },
                    }
                },
            };
            proof {
                assert(node_view(node) == spec_parse_node(evs, ip)->Some_0.0);
            }
            match &node.kind {
                NodeKind::HorizontalLine => {
                    proof {
                        assert(step == spec_finish_groups(
                            open0,
                            groups0,
                            self.idx as int,
                            self.pos as int,
                        ));
                    }
                    match open_group {
                        Some(og) => {
                            return Err(Error::new(ErrorKind::EmptyIngredientGroup, Some(og.1)));
                        },
                        None => {
                            if groups.len() == 0 {
                                return Err(Error::new(ErrorKind::EmptyIngredientGroup, None));
                            } else {
                                return Ok(groups);
                            }
                        },
                    }
                },
                NodeKind::Heading { level, children } => {
                    match open_group {
                        Some(og) => {
                            return Err(Error::new(ErrorKind::EmptyIngredientGroup, Some(og.1)));
                        },
                        None => {
                            let sp = span_or_zero(children);
                            let title = slice_text(self.src.as_slice(), sp.start, sp.end);
                            proof {
                                open_m = Option::Some(
                                    (spec_slice(s, sp.start as int, sp.end as int), node.span),
                                );
                            }
                            open_group = Some((title, node.span));
                            proof {
                                assert(step == spec_ingredients_loop(
                                    s,
                                    evs,
                                    self.idx as int,
                                    self.pos as int,
                                    open_m,
                                    groups_m,
                                ));
                            }
                        },
                    }
                },
                NodeKind::List(items) => {
                    let ings = match parse_list_ingredients(self.src.as_slice(), items) {
                        Ok(v) => v,
                        Err(e) => {
                            return Err(e);
                        },
                    };
                    let title = match open_group {
                        Some(og) => Some(og.0),
                        None => None,
                    };
                    proof {
                        groups_m = groups_m.push(
                            GroupM {
                                title: match open0 {
                                    Option::Some(om) => Option::Some(om.0),
                                    Option::None => Option::None,
                                },
                                ingredients: spec_list_ingredients(
                                    s,
                                    nodes_view(items@),
                                )->Ok_0,
                            },
                        );
                        open_m = Option::None;
                    }
                    open_group = None;
                    groups.push(IngredientGroup { title, ingredients: ings });
                    proof {
                        assert(groups@.last() == groups@[groups_m.len() - 1]);
                        assert(group_matches(groups@[groups_m.len() - 1], groups_m.last()));
                        assert(step == spec_ingredients_loop(
                            s,
                            evs,
                            self.idx as int,
                            self.pos as int,
                            open_m,
                            groups_m,
                        ));
                    }
                },
                _ => {
                    return Err(Error::new(ErrorKind::ExpectedHorizontalLine, Some(node.span)));
                },
            }
        }
    }
}


/// What the whole parse makes of a source text and its event stream:
/// title, then description/tags/yields up to the first divider, then the
/// ingredient groups up to the second divider, then the rest of the text
/// as instructions.
pub open spec fn spec_parse_recipe(s: Seq<u8>, evs: Seq<SpannedEvent>) -> Result<RecipeM, ErrorM> {
    match spec_title(s, evs, 0) {
        Result::Err(e) => Result::Err(e),
        Result::Ok(t) => match spec_dty(s, evs, t.1, t.2) {
            Result::Err(e) => Result::Err(e),
            Result::Ok(d) => match spec_ingredients(s, evs, d.1, d.2) {
                Result::Err(e) => Result::Err(e),
                Result::Ok(g) => Result::Ok(
                    RecipeM {
                        title: t.0,
                        description: d.0.description,
                        tags: d.0.tags,
                        yields: d.0.yields,
                        ingredients: g.0,
                        instructions: spec_nl_trimmed_text(s, g.2, s.len() as int),
                    },
                ),
            },
        },
    }
}

impl RecipeParser {
    /// Runs the whole parse over a fresh parser.
    pub fn parse_recipe(&mut self) -> (r: Result<Recipe, Error>)
        requires
            old(self).idx == 0,
        ensures
            match (r, spec_parse_recipe(old(self).src@, old(self).events@)) {
                (Result::Ok(rec), Result::Ok(m)) => recipe_matches(rec, m),
                (Result::Err(e), Result::Err(em)) => e.kind == em.kind && e.span == em.span
                    && e.src_view() is None,
                _ => false,
            },
    {
        let title = match self.parse_title() {
            Ok(t) => t,
            Err(e) => {
                return Err(e);
            },
        };
        let dty = match self.parse_description_tags_yields() {
            Ok(d) => d,
            Err(e) => {
                return Err(e);
            },
        };
        let (description, tags, yields) = dty;
        let ingredients = match self.parse_all_ingredients() {
            Ok(g) => g,
            Err(e) => {
                return Err(e);
            },
        };
        let instructions = nl_trimmed_text(self.src.as_slice(), self.pos, self.src.len());
        Ok(Recipe { title, description, tags, yields, ingredients, instructions })
    }
}

/// Parsing is deterministic: the parsed model is a function of the source
/// text alone, so re-parsing equal text yields equal results.
pub proof fn lemma_parse_deterministic(src1: Seq<u8>, src2: Seq<u8>)
    requires
        src1 == src2,
    ensures
        spec_parse_recipe(src1, md_events(src1)) == spec_parse_recipe(src2, md_events(src2)),
{
}


/// When the section state machine fails for want of a divider, the input
/// ran out, so there is no node to blame: such an error carries no span.
pub proof fn lemma_missing_divider_has_no_span(
    s: Seq<u8>,
    evs: Seq<SpannedEvent>,
    i: int,
    ds: int,
    st: DescState,
    tags: Option<Seq<Seq<u8>>>,
    yields: Option<Seq<AmountM>>,
)
    requires
        spec_dty_loop(s, evs, i, ds, st, tags, yields) is Err,
        spec_dty_loop(s, evs, i, ds, st, tags, yields)->Err_0.kind
            == ErrorKind::ExpectedHorizontalLine,
    ensures
        spec_dty_loop(s, evs, i, ds, st, tags, yields)->Err_0.span is None,
    decreases evs.len() - i,
{
    if 0 <= i < evs.len() {
        match spec_parse_node(evs, i) {
            Option::None => {},
            Option::Some((nm, extra)) => {
                let ni = clamp_idx(evs.len() as int, i + 1 + extra);
                match nm.kind {
                    NodeKindM::Paragraph(children) => {
                        if children.len() == 1 && children[0].kind is Emphasis && children[0].kind
                            ->Emphasis_0.len() == 1 {
                            if tags is None {
                                let st2 = if st is Started {
                                    DescState::Done(st->Started_0)
                                } else {
                                    st
                                };
                                let csp = spec_nodes_span(children[0].kind->Emphasis_0);
                                lemma_missing_divider_has_no_span(
                                    s,
                                    evs,
                                    ni,
                                    ds,
                                    st2,
                                    Option::Some(
                                        spec_tag_pieces(s, csp.start as int, csp.end as int),
                                    ),
                                    yields,
                                );
                            }
                        } else if children.len() == 1 && children[0].kind is Strong
                            && children[0].kind->Strong_0.len() == 1 {
                            if yields is None {
                                let st2 = if st is Started {
                                    DescState::Done(st->Started_0)
                                } else {
                                    st
                                };
                                let csp = spec_nodes_span(children[0].kind->Strong_0);
                                lemma_missing_divider_has_no_span(
                                    s,
                                    evs,
                                    ni,
                                    ds,
                                    st2,
                                    tags,
                                    Option::Some(
                                        spec_yield_pieces(s, csp.start as int, csp.end as int),
                                    ),
                                );
                            }
                        } else {
                            let sp = if children.len() == 0 {
                                nm.span
                            } else {
                                spec_nodes_span(children)
                            };
                            if !(st is Done) {
                                lemma_missing_divider_has_no_span(
                                    s,
                                    evs,
                                    ni,
                                    ds,
                                    DescState::Started(sp.end),
                                    tags,
                                    yields,
                                );
                            }
                        }
                    },
                    NodeKindM::HorizontalLine => {},
                    _ => {
                        if !(st is Done) {
                            lemma_missing_divider_has_no_span(
                                s,
                                evs,
                                ni,
                                ds,
                                DescState::Started(nm.span.end),
                                tags,
                                yields,
                            );
                        }
                    },
                }
            },
        }
    }
}

/// When the ingredient tree builder meets a node that may not stand in the
/// ingredient section, the error names that node: such an error always
/// carries a span.
pub proof fn lemma_unexpected_node_is_blamed(
    s: Seq<u8>,
    evs: Seq<SpannedEvent>,
    i: int,
    pos: int,
    open_group: Option<(Seq<u8>, Span)>,
    groups: Seq<GroupM>,
)
    requires
        spec_ingredients_loop(s, evs, i, pos, open_group, groups) is Err,
        spec_ingredients_loop(s, evs, i, pos, open_group, groups)->Err_0.kind
            == ErrorKind::ExpectedHorizontalLine,
    ensures
        spec_ingredients_loop(s, evs, i, pos, open_group, groups)->Err_0.span is Some,
    decreases evs.len() - i,
{
    if 0 <= i < evs.len() {
        match spec_parse_node(evs, i) {
            Option::None => {},
            Option::Some((nm, extra)) => {
                let ni = clamp_idx(evs.len() as int, i + 1 + extra);
                match nm.kind {
                    NodeKindM::Heading { level, children } => {
                        if open_group is None {
                            let sp = spec_nodes_span(children);
                            lemma_unexpected_node_is_blamed(
                                s,
                                evs,
                                ni,
                                nm.span.end as int,
                                Option::Some(
                                    (spec_slice(s, sp.start as int, sp.end as int), nm.span),
                                ),
                                groups,
                            );
                        }
                    },
                    NodeKindM::List(items) => {
                        match spec_list_ingredients(s, items) {
                            Result::Err(e) => {
                                lemma_list_errors_are_empty_ingredients(s, items);
                            },
                            Result::Ok(ings) => {
                                let g = GroupM {
                                    title: match open_group {
                                        Option::Some((t, _)) => Option::Some(t),
                                        Option::None => Option::None,
                                    },
                                    ingredients: ings,
                                };
                                lemma_unexpected_node_is_blamed(
                                    s,
                                    evs,
                                    ni,
                                    nm.span.end as int,
                                    Option::None,
                                    groups.push(g),
                                );
                            },
                        }
                    },
                    _ => {},
                }
            },
        }
    }
}

/// The only error an ingredient list itself can raise is a missing
/// ingredient name.
pub proof fn lemma_list_errors_are_empty_ingredients(s: Seq<u8>, items: Seq<NodeM>)
    requires
        spec_list_ingredients(s, items) is Err,
    ensures
        spec_list_ingredients(s, items)->Err_0.kind == ErrorKind::EmptyIngredient,
    decreases items.len(),
{
    if items.len() > 0 {
        match spec_ingredient(s, spec_flatten(items[0])) {
            Result::Err(e) => {
                lemma_ingredient_errors_are_empty_ingredients(s, spec_flatten(items[0]));
            },
            Result::Ok(_) => {
                lemma_list_errors_are_empty_ingredients(s, items.drop_first());
            },
        }
    }
}

/// The only error the ingredient shape classifier can raise is a missing
/// ingredient name.
pub proof fn lemma_ingredient_errors_are_empty_ingredients(s: Seq<u8>, n: NodeM)
    requires
        spec_ingredient(s, n) is Err,
    ensures
        spec_ingredient(s, n)->Err_0.kind == ErrorKind::EmptyIngredient,
    decreases n,
{
    let children = spec_children_of(n.kind);
    if children.len() == 1 && children[0].kind is Paragraph && !(children[0].kind is Emphasis) {
        lemma_ingredient_errors_are_empty_ingredients(s, children[0]);
    }
}

/// A parse that succeeds always yields at least one ingredient group.
pub proof fn lemma_success_has_ingredients(s: Seq<u8>, evs: Seq<SpannedEvent>)
    requires
        spec_parse_recipe(s, evs) is Ok,
    ensures
        spec_parse_recipe(s, evs)->Ok_0.ingredients.len() > 0,
{
    match spec_title(s, evs, 0) {
        Result::Err(_) => {},
        Result::Ok(t) => match spec_dty(s, evs, t.1, t.2) {
            Result::Err(_) => {},
            Result::Ok(d) => {
                lemma_groups_only_grow(s, evs, d.1, d.2, Option::None, Seq::empty());
            },
        },
    }
}

/// The ingredient tree builder only ever adds groups, and it refuses to
/// finish with none, so a successful run returns a non-empty list.
pub proof fn lemma_groups_only_grow(
    s: Seq<u8>,
    evs: Seq<SpannedEvent>,
    i: int,
    pos: int,
    open_group: Option<(Seq<u8>, Span)>,
    groups: Seq<GroupM>,
)
    requires
        spec_ingredients_loop(s, evs, i, pos, open_group, groups) is Ok,
    ensures
        spec_ingredients_loop(s, evs, i, pos, open_group, groups)->Ok_0.0.len() > 0,
    decreases evs.len() - i,
{
    if 0 <= i < evs.len() {
        match spec_parse_node(evs, i) {
            Option::None => {},
            Option::Some((nm, extra)) => {
                let ni = clamp_idx(evs.len() as int, i + 1 + extra);
                match nm.kind {
                    NodeKindM::Heading { level, children } => {
                        if open_group is None {
                            let sp = spec_nodes_span(children);
                            lemma_groups_only_grow(
                                s,
                                evs,
                                ni,
                                nm.span.end as int,
                                Option::Some(
                                    (spec_slice(s, sp.start as int, sp.end as int), nm.span),
                                ),
                                groups,
                            );
                        }
                    },
                    NodeKindM::List(items) => {
                        match spec_list_ingredients(s, items) {
                            Result::Err(_) => {},
                            Result::Ok(ings) => {
                                let g = GroupM {
                                    title: match open_group {
                                        Option::Some((t, _)) => Option::Some(t),
                                        Option::None => Option::None,
                                    },
                                    ingredients: ings,
                                };
                                lemma_groups_only_grow(
                                    s,
                                    evs,
                                    ni,
                                    nm.span.end as int,
                                    Option::None,
                                    groups.push(g),
                                );
                            },
                        }
                    },
                    _ => {},
                }
            },
        }
    }
}

} // verus!
