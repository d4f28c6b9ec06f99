//! Books: multi-chapter documents described by a nested-list summary.
//!
//! The summary markup is parsed by an outside markdown engine into a flat
//! stream of structural events; everything after that — building the ordered
//! chapter forest, computing slugs and file paths, and threading the
//! previous/next/parent navigation links in document order — is owned and
//! verified here.

use vstd::prelude::*;

verus! {

use vstd::string::StrSliceExecFns;
use crate::strings::{join_path_spec, join_path, replace_spec, replace_all};

/// One structural event of a summary document.
#[derive(Debug)]
pub enum SummaryEvent {
    /// A (possibly nested) list begins.
    ListStart,
    ListEnd,
    /// A list item begins.
    ItemStart,
    ItemEnd,
    /// A link starts; the payload is its destination.
    Link(String),
    /// A text run; the payload names the chapter.
    Text(String),
}

/// The spec-level form of a summary event.
pub enum SummaryEventS {
    ListStart,
    ListEnd,
    ItemStart,
    ItemEnd,
    Link(Seq<char>),
    Text(Seq<char>),
}

impl View for SummaryEvent {
    type V = SummaryEventS;

    open spec fn view(&self) -> SummaryEventS {
        match self {
            SummaryEvent::ListStart => SummaryEventS::ListStart,
            SummaryEvent::ListEnd => SummaryEventS::ListEnd,
            SummaryEvent::ItemStart => SummaryEventS::ItemStart,
            SummaryEvent::ItemEnd => SummaryEventS::ItemEnd,
            SummaryEvent::Link(url) => SummaryEventS::Link(url@),
            SummaryEvent::Text(t) => SummaryEventS::Text(t@),
        }
    }
}

/// The spec-level form of an event list.
pub open spec fn event_views(s: Seq<SummaryEvent>) -> Seq<SummaryEventS> {
    s.map_values(|e: SummaryEvent| e@)
}

/// The events named by coded pairs, as the markdown engine hands them over;
/// unknown codes are dropped.
pub open spec fn events_decode(pairs: Seq<(u8, Seq<char>)>) -> Seq<SummaryEventS>
    decreases pairs.len(),
{
    if pairs.len() == 0 {
        Seq::empty()
    } else {
        let rest = events_decode(pairs.drop_first());
        let e = pairs[0];
        if e.0 == 1 {
            seq![SummaryEventS::ListStart] + rest
        } else if e.0 == 2 {
            seq![SummaryEventS::ListEnd] + rest
        } else if e.0 == 3 {
            seq![SummaryEventS::ItemStart] + rest
        } else if e.0 == 4 {
            seq![SummaryEventS::ItemEnd] + rest
        } else if e.0 == 5 {
            seq![SummaryEventS::Link(e.1)] + rest
        } else if e.0 == 6 {
            seq![SummaryEventS::Text(e.1)] + rest
        } else {
            rest
        }
    }
}

/// The coded events of the nested-list structure of `text`, in the order the
/// markdown engine reports them; a function of the text alone.
pub uninterp spec fn summary_events_of(text: Seq<char>) -> Seq<(u8, Seq<char>)>;

/// Relies on pulldown-cmark's Parser: reports list, item, link and text
/// events of the markup in document order, here as coded pairs.
#[verifier::external_body]
fn md_summary_events(text: &str) -> (r: Vec<(u8, String)>)
    ensures
        r.deep_view() == summary_events_of(text@),
{
    pulldown_cmark::Parser::new(text).filter_map(|ev| match ev {
        pulldown_cmark::Event::Start(pulldown_cmark::Tag::List(_)) => Some((1, String::new())),
        pulldown_cmark::Event::End(pulldown_cmark::Tag::List(_)) => Some((2, String::new())),
        pulldown_cmark::Event::Start(pulldown_cmark::Tag::Item) => Some((3, String::new())),
        pulldown_cmark::Event::End(pulldown_cmark::Tag::Item) => Some((4, String::new())),
        pulldown_cmark::Event::Start(pulldown_cmark::Tag::Link(_, url, _)) => {
            Some((5, url.into_string()))
        },
        pulldown_cmark::Event::Text(t) => Some((6, t.into_string())),
        _ => None,
    }).collect()
}

proof fn lemma_event_views_push(pre: Seq<SummaryEvent>, post: Seq<SummaryEvent>, e: SummaryEvent)
    requires
        post == pre.push(e),
    ensures
        event_views(post) == event_views(pre).push(e@),
{
    assert forall|j: int| 0 <= j < post.len() implies event_views(post)[j] == event_views(
        pre,
    ).push(e@)[j] by {
        if j < pre.len() {
            assert(post[j] == pre[j]);
        } else {
            assert(post[j] == e);
        }
    }
    assert(event_views(post) =~= event_views(pre).push(e@));
}

/// The exec form of `events_decode`.
pub fn decode_events(pairs: &Vec<(u8, String)>) -> (r: Vec<SummaryEvent>)
    ensures
        event_views(r@) == events_decode(pairs.deep_view()),
{
    let mut out: Vec<SummaryEvent> = Vec::new();
    let n = pairs.len();
    let mut i: usize = 0;
    assert(pairs.deep_view().skip(0) =~= pairs.deep_view());
    assert(event_views(out@) + events_decode(pairs.deep_view()) =~= events_decode(
        pairs.deep_view(),
    ));
    while i < n
        invariant
            n == pairs@.len(),
            pairs.deep_view().len() == n,
            0 <= i <= n,
            events_decode(pairs.deep_view()) == event_views(out@) + events_decode(
                pairs.deep_view().skip(i as int),
            ),
        decreases n - i,
    {
        let ghost pre = pairs.deep_view().skip(i as int);
        let ghost outpre = out@;
        proof {
            assert(pre[0] == pairs.deep_view()[i as int]);
            assert(pre.drop_first() =~= pairs.deep_view().skip(i + 1));
            assert(pairs.deep_view()[i as int] == (pairs@[i as int].0, pairs@[i as int].1@));
        }
        let code = pairs[i].0;
        let decoded: Option<SummaryEvent> = if code == 1 {
            Some(SummaryEvent::ListStart)
        } else if code == 2 {
            Some(SummaryEvent::ListEnd)
        } else if code == 3 {
            Some(SummaryEvent::ItemStart)
        } else if code == 4 {
            Some(SummaryEvent::ItemEnd)
        } else if code == 5 {
            Some(SummaryEvent::Link(pairs[i].1.clone()))
        } else if code == 6 {
            Some(SummaryEvent::Text(pairs[i].1.clone()))
        } else {
            None
        };
        match decoded {
            Some(e) => {
                proof {
                    assert(events_decode(pre) =~= seq![e@] + events_decode(pre.drop_first()));
                }
                out.push(e);
                proof {
                    lemma_event_views_push(outpre, out@, e);
                    assert(event_views(out@) + events_decode(pre.drop_first()) =~= event_views(
                        outpre,
                    ) + events_decode(pre));
                }
            },
            None => {
                proof {
                    assert(events_decode(pre) =~= events_decode(pre.drop_first()));
                }
            },
        }
        i = i + 1;
    }
    assert(pairs.deep_view().skip(n as int) =~= Seq::<(u8, Seq<char>)>::empty());
    assert(event_views(out@) =~= event_views(out@) + events_decode(
        pairs.deep_view().skip(n as int),
    ));
    out
}

/// A chapter as parsed from the summary, before locations and navigation
/// links are attached: its name, its link destination, and its children.
#[derive(Debug)]
pub struct RawChapter {
    pub name: String,
    pub url: String,
    pub sub_chapters: Vec<RawChapter>,
}

/// The spec-level form of a parsed chapter.
pub struct RawChapterS {
    pub name: Seq<char>,
    pub url: Seq<char>,
    pub subs: Seq<RawChapterS>,
}

pub open spec fn raw_view(c: RawChapter) -> RawChapterS
    decreases c,
{
    RawChapterS { name: c.name@, url: c.url@, subs: raw_views(c.sub_chapters@) }
}

pub open spec fn raw_views(s: Seq<RawChapter>) -> Seq<RawChapterS>
    decreases s,
{
    if s.len() == 0 {
        Seq::empty()
    } else {
        seq![raw_view(s[0])] + raw_views(s.drop_first())
    }
}

proof fn lemma_raw_views_index(s: Seq<RawChapter>, i: int)
    requires
        0 <= i < s.len(),
    ensures
        raw_views(s).len() == s.len(),
        raw_views(s)[i] == raw_view(s[i]),
    decreases s.len(),
{
    lemma_raw_views_len(s);
    if i > 0 {
        lemma_raw_views_index(s.drop_first(), i - 1);
    }
}

proof fn lemma_raw_views_len(s: Seq<RawChapter>)
    ensures
        raw_views(s).len() == s.len(),
    decreases s.len(),
{
    if s.len() > 0 {
        lemma_raw_views_len(s.drop_first());
    }
}

proof fn lemma_raw_views_push(pre: Seq<RawChapter>, post: Seq<RawChapter>, c: RawChapter)
    requires
        post == pre.push(c),
    ensures
        raw_views(post) == raw_views(pre).push(raw_view(c)),
    decreases pre.len(),
{
    if pre.len() == 0 {
        assert(post.len() == 1);
        assert(post[0] == c);
        assert(post.drop_first() =~= Seq::<RawChapter>::empty());
        assert(raw_views(post.drop_first()) =~= Seq::<RawChapterS>::empty());
        assert(raw_views(pre) =~= Seq::<RawChapterS>::empty());
        assert(raw_views(post) =~= raw_views(pre).push(raw_view(c)));
    } else {
        assert(post[0] == pre[0]);
        assert(post.drop_first() =~= pre.drop_first().push(c));
        lemma_raw_views_push(pre.drop_first(), post.drop_first(), c);
        assert(raw_views(post) =~= raw_views(pre).push(raw_view(c)));
    }
}

proof fn lemma_raw_views_concat(a: Seq<RawChapter>, b: Seq<RawChapter>)
    ensures
        raw_views(a + b) == raw_views(a) + raw_views(b),
    decreases a.len(),
{
    if a.len() == 0 {
        assert(a + b =~= b);
        assert(raw_views(a) =~= Seq::<RawChapterS>::empty());
        assert(raw_views(a) + raw_views(b) =~= raw_views(b));
    } else {
        assert((a + b)[0] == a[0]);
        assert((a + b).drop_first() =~= a.drop_first() + b);
        lemma_raw_views_concat(a.drop_first(), b);
        assert(raw_views(a + b) =~= raw_views(a) + raw_views(b));
    }
}

/// An index clamped into the range `lo ..= hi`.
pub open spec fn clamp_idx(j: int, lo: int, hi: int) -> int {
    if j < lo {
        lo
    } else if j > hi {
        hi
    } else {
        j
    }
}

/// Parse the body of one list item, starting just after its opening event:
/// text runs name the chapter, a link gives its destination, a nested list
/// contributes children, and the item's closing event ends it. Malformed
/// input ends the item early, losing nothing that was read.
pub open spec fn spec_parse_item(
    ev: Seq<SummaryEventS>,
    i: int,
    name: Seq<char>,
    url: Seq<char>,
    subs: Seq<RawChapterS>,
) -> (RawChapterS, int)
    decreases ev.len() - i, 0int,
{
    if i < 0 || i >= ev.len() {
        (RawChapterS { name, url, subs }, ev.len() as int)
    } else {
        match ev[i] {
            SummaryEventS::Text(t) => spec_parse_item(ev, i + 1, t, url, subs),
            SummaryEventS::Link(u) => spec_parse_item(ev, i + 1, name, u, subs),
            SummaryEventS::ListStart => {
                let (children, j) = spec_parse_items(ev, i + 1);
                spec_parse_item(
                    ev,
                    clamp_idx(j, i + 1, ev.len() as int),
                    name,
                    url,
                    subs + children,
                )
            },
            SummaryEventS::ItemEnd => (RawChapterS { name, url, subs }, i + 1),
            SummaryEventS::ItemStart => (RawChapterS { name, url, subs }, i),
            SummaryEventS::ListEnd => (RawChapterS { name, url, subs }, i),
        }
    }
}

/// Parse a run of sibling items up to the event that closes their list (or
/// the end of input). A nested list with no item to own it contributes its
/// items at this level, so that malformed input degrades gracefully.
pub open spec fn spec_parse_items(ev: Seq<SummaryEventS>, i: int) -> (Seq<RawChapterS>, int)
    decreases ev.len() - i, 1int,
{
    if i < 0 || i >= ev.len() {
        (Seq::empty(), ev.len() as int)
    } else {
        match ev[i] {
            SummaryEventS::ItemStart => {
                let (c, j) = spec_parse_item(ev, i + 1, Seq::empty(), Seq::empty(), Seq::empty());
                let (rest, k) = spec_parse_items(ev, clamp_idx(j, i + 1, ev.len() as int));
                (seq![c] + rest, k)
            },
            SummaryEventS::ListEnd => (Seq::empty(), i + 1),
            SummaryEventS::ListStart => {
                let (inner, j) = spec_parse_items(ev, i + 1);
                let (rest, k) = spec_parse_items(ev, clamp_idx(j, i + 1, ev.len() as int));
                (inner + rest, k)
            },
            _ => spec_parse_items(ev, i + 1),
        }
    }
}

/// The chapter forest described by an event list.
pub open spec fn spec_parse_forest(ev: Seq<SummaryEventS>) -> Seq<RawChapterS> {
    spec_parse_items(ev, 0).0
}

fn parse_item(ev: &Vec<SummaryEvent>, i: usize, name: String, url: String, subs: Vec<RawChapter>)
    -> (r: (RawChapter, usize))
    requires
        i <= ev@.len(),
    ensures
        ({
            let (c, j) = spec_parse_item(event_views(ev@), i as int, name@, url@, raw_views(
                subs@,
            ));
            raw_view(r.0) == c && r.1 as int == j && i <= r.1 <= ev@.len()
        }),
    decreases ev@.len() - i, 0int,
{
    proof {
        assert(event_views(ev@).len() == ev@.len());
    }
    if i >= ev.len() {
        let r = RawChapter { name, url, sub_chapters: subs };
        return (r, ev.len());
    }
    proof {
        assert(event_views(ev@)[i as int] == ev@[i as int]@);
    }
    match &ev[i] {
        SummaryEvent::Text(t) => parse_item(ev, i + 1, t.clone(), url, subs),
        SummaryEvent::Link(u) => parse_item(ev, i + 1, name, u.clone(), subs),
        SummaryEvent::ListStart => {
            let (children, j) = parse_items(ev, i + 1);
            let j2: usize = if j < i + 1 {
                i + 1
            } else {
                j
            };
            let mut subs2 = subs;
            let ghost pre_subs = subs2@;
            let mut children2 = children;
            subs2.append(&mut children2);
            proof {
                assert(subs2@ =~= pre_subs + children@);
                lemma_raw_views_concat(pre_subs, children@);
            }
            parse_item(ev, j2, name, url, subs2)
        },
        SummaryEvent::ItemEnd => {
            let r = RawChapter { name, url, sub_chapters: subs };
            (r, i + 1)
        },
        SummaryEvent::ItemStart => {
            let r = RawChapter { name, url, sub_chapters: subs };
            (r, i)
        },
        SummaryEvent::ListEnd => {
            let r = RawChapter { name, url, sub_chapters: subs };
            (r, i)
        },
    }
}

fn parse_items(ev: &Vec<SummaryEvent>, i: usize) -> (r: (Vec<RawChapter>, usize))
    requires
        i <= ev@.len(),
    ensures
        ({
            let (cs, j) = spec_parse_items(event_views(ev@), i as int);
            raw_views(r.0@) == cs && r.1 as int == j && i <= r.1 <= ev@.len()
        }),
    decreases ev@.len() - i, 1int,
{
    proof {
        assert(event_views(ev@).len() == ev@.len());
    }
    if i >= ev.len() {
        let r: Vec<RawChapter> = Vec::new();
        assert(raw_views(r@) =~= Seq::<RawChapterS>::empty());
        return (r, ev.len());
    }
    proof {
        assert(event_views(ev@)[i as int] == ev@[i as int]@);
    }
    match &ev[i] {
        SummaryEvent::ItemStart => {
            let (c, j) = parse_item(ev, i + 1, String::new(), String::new(), Vec::new());
            proof {
                assert(raw_views(Seq::<RawChapter>::empty()) =~= Seq::<RawChapterS>::empty());
            }
            let j2: usize = if j < i + 1 {
                i + 1
            } else {
                j
            };
            let (rest, k) = parse_items(ev, j2);
            let mut out: Vec<RawChapter> = Vec::new();
            out.push(c);
            let ghost one = out@;
            let mut rest2 = rest;
            out.append(&mut rest2);
            proof {
                assert(out@ =~= one + rest@);
                lemma_raw_views_concat(one, rest@);
                assert(one[0] == c);
                assert(one.drop_first() =~= Seq::<RawChapter>::empty());
                assert(raw_views(one.drop_first()) =~= Seq::<RawChapterS>::empty());
                assert(raw_views(one) =~= seq![raw_view(c)]);
            }
            (out, k)
        },
        SummaryEvent::ListEnd => {
            let r: Vec<RawChapter> = Vec::new();
            assert(raw_views(r@) =~= Seq::<RawChapterS>::empty());
            (r, i + 1)
        },
        SummaryEvent::ListStart => {
            let (inner, j) = parse_items(ev, i + 1);
            let j2: usize = if j < i + 1 {
                i + 1
            } else {
                j
            };
            let (rest, k) = parse_items(ev, j2);
            let mut out = inner;
            let ghost inner_s = out@;
            let mut rest2 = rest;
            out.append(&mut rest2);
            proof {
                assert(out@ =~= inner_s + rest@);
                lemma_raw_views_concat(inner_s, rest@);
            }
            (out, k)
        },
        _ => parse_items(ev, i + 1),
    }
}

/// A non-owning reference to a chapter: its name and its slug.
#[derive(Debug)]
pub struct ChapterLink {
    pub name: String,
    pub slug: String,
}

/// The spec-level form of a chapter link.
pub struct LinkS {
    pub name: Seq<char>,
    pub slug: Seq<char>,
}

pub open spec fn link_view(l: ChapterLink) -> LinkS {
    LinkS { name: l.name@, slug: l.slug@ }
}

pub open spec fn opt_link_view(l: Option<ChapterLink>) -> Option<LinkS> {
    match l {
        Some(x) => Some(link_view(x)),
        None => None,
    }
}

pub open spec fn link_views(s: Seq<ChapterLink>) -> Seq<LinkS> {
    s.map_values(|l: ChapterLink| link_view(l))
}

impl ChapterLink {
    /// A value equal to this one in both fields.
    pub fn duplicate(&self) -> (r: ChapterLink)
        ensures
            link_view(r) == link_view(*self),
    {
        ChapterLink { name: self.name.clone(), slug: self.slug.clone() }
    }
}

fn duplicate_opt_link(l: &Option<ChapterLink>) -> (r: Option<ChapterLink>)
    ensures
        opt_link_view(r) == opt_link_view(*l),
{
    match l {
        Some(x) => Some(x.duplicate()),
        None => None,
    }
}

/// A chapter of a book: its place in the source tree, its output location,
/// its children, and its navigation links.
#[derive(Debug)]
pub struct ChapterInfo {
    pub name: String,
    /// Nesting depth; the root chapters stand at depth one.
    pub level: usize,
    /// The source file the chapter is read from.
    pub file_url: String,
    pub sub_chapters: Vec<ChapterInfo>,
    /// The output-relative address of the rendered chapter.
    pub slug: String,
    /// The absolute file name the chapter is written to, where a caller
    /// chooses to track it; empty until then.
    pub output: String,
    /// The chapter that follows in reading order.
    pub next: Option<ChapterLink>,
    /// The chapter that precedes in reading order.
    pub previous: Option<ChapterLink>,
    /// The owning chapter; none for a chapter at the root.
    pub parent: Option<ChapterLink>,
}

/// The spec-level form of a chapter.
pub struct ChapterInfoS {
    pub name: Seq<char>,
    pub level: int,
    pub file_url: Seq<char>,
    pub subs: Seq<ChapterInfoS>,
    pub slug: Seq<char>,
    pub output: Seq<char>,
    pub next: Option<LinkS>,
    pub previous: Option<LinkS>,
    pub parent: Option<LinkS>,
}

pub open spec fn info_view(c: ChapterInfo) -> ChapterInfoS
    decreases c,
{
    ChapterInfoS {
        name: c.name@,
        level: c.level as int,
        file_url: c.file_url@,
        subs: info_views(c.sub_chapters@),
        slug: c.slug@,
        output: c.output@,
        next: opt_link_view(c.next),
        previous: opt_link_view(c.previous),
        parent: opt_link_view(c.parent),
    }
}

pub open spec fn info_views(s: Seq<ChapterInfo>) -> Seq<ChapterInfoS>
    decreases s,
{
    if s.len() == 0 {
        Seq::empty()
    } else {
        seq![info_view(s[0])] + info_views(s.drop_first())
    }
}

proof fn lemma_info_views_len(s: Seq<ChapterInfo>)
    ensures
        info_views(s).len() == s.len(),
    decreases s.len(),
{
    if s.len() > 0 {
        lemma_info_views_len(s.drop_first());
    }
}

proof fn lemma_info_views_index(s: Seq<ChapterInfo>, i: int)
    requires
        0 <= i < s.len(),
    ensures
        info_views(s).len() == s.len(),
        info_views(s)[i] == info_view(s[i]),
    decreases s.len(),
{
    lemma_info_views_len(s);
    if i > 0 {
        lemma_info_views_index(s.drop_first(), i - 1);
    }
}

proof fn lemma_info_views_push(pre: Seq<ChapterInfo>, post: Seq<ChapterInfo>, c: ChapterInfo)
    requires
        post == pre.push(c),
    ensures
        info_views(post) == info_views(pre).push(info_view(c)),
    decreases pre.len(),
{
    if pre.len() == 0 {
        assert(post.len() == 1);
        assert(post[0] == c);
        assert(post.drop_first() =~= Seq::<ChapterInfo>::empty());
        assert(info_views(post.drop_first()) =~= Seq::<ChapterInfoS>::empty());
        assert(info_views(pre) =~= Seq::<ChapterInfoS>::empty());
        assert(info_views(post) =~= info_views(pre).push(info_view(c)));
    } else {
        assert(post[0] == pre[0]);
        assert(post.drop_first() =~= pre.drop_first().push(c));
        lemma_info_views_push(pre.drop_first(), post.drop_first(), c);
        assert(info_views(post) =~= info_views(pre).push(info_view(c)));
    }
}

/// The source extension rewritten in slugs.
pub open spec fn md_pat() -> Seq<char> {
    seq!['.', 'm', 'd']
}

/// The output extension it is rewritten to.
pub open spec fn html_rep() -> Seq<char> {
    seq!['.', 'h', 't', 'm', 'l']
}

/// The output address of a chapter: its link destination joined under the
/// output root, with the source extension rewritten.
pub open spec fn chapter_slug(out_folder: Seq<char>, url: Seq<char>) -> Seq<char> {
    replace_spec(join_path_spec(out_folder, url), md_pat(), html_rep())
}

/// The next nesting level, saturating at the machine limit.
pub open spec fn next_level(level: int) -> int {
    if level + 1 <= usize::MAX as int {
        level + 1
    } else {
        level
    }
}

/// A parsed chapter given its locations and level, its children likewise,
/// one level deeper; navigation links stay empty for the threading pass.
pub open spec fn dec_node(
    c: RawChapterS,
    in_folder: Seq<char>,
    out_folder: Seq<char>,
    level: int,
) -> ChapterInfoS
    decreases c,
{
    ChapterInfoS {
        name: c.name,
        level,
        file_url: join_path_spec(in_folder, c.url),
        subs: dec_forest(c.subs, in_folder, out_folder, next_level(level)),
        slug: chapter_slug(out_folder, c.url),
        output: Seq::empty(),
        next: None,
        previous: None,
        parent: None,
    }
}

pub open spec fn dec_forest(
    s: Seq<RawChapterS>,
    in_folder: Seq<char>,
    out_folder: Seq<char>,
    level: int,
) -> Seq<ChapterInfoS>
    decreases s,
{
    if s.len() == 0 {
        Seq::empty()
    } else {
        seq![dec_node(s[0], in_folder, out_folder, level)] + dec_forest(
            s.drop_first(),
            in_folder,
            out_folder,
            level,
        )
    }
}

proof fn lemma_dec_forest_push(
    pre: Seq<RawChapterS>,
    post: Seq<RawChapterS>,
    c: RawChapterS,
    in_folder: Seq<char>,
    out_folder: Seq<char>,
    level: int,
)
    requires
        post == pre.push(c),
    ensures
        dec_forest(post, in_folder, out_folder, level) == dec_forest(
            pre,
            in_folder,
            out_folder,
            level,
        ).push(dec_node(c, in_folder, out_folder, level)),
    decreases pre.len(),
{
    if pre.len() == 0 {
        assert(post.len() == 1);
        assert(post[0] == c);
        assert(post.drop_first() =~= Seq::<RawChapterS>::empty());
        assert(dec_forest(post.drop_first(), in_folder, out_folder, level) =~= Seq::<
            ChapterInfoS,
        >::empty());
        assert(dec_forest(pre, in_folder, out_folder, level) =~= Seq::<ChapterInfoS>::empty());
        assert(dec_forest(post, in_folder, out_folder, level) =~= dec_forest(
            pre,
            in_folder,
            out_folder,
            level,
        ).push(dec_node(c, in_folder, out_folder, level)));
    } else {
        assert(post[0] == pre[0]);
        assert(post.drop_first() =~= pre.drop_first().push(c));
        lemma_dec_forest_push(pre.drop_first(), post.drop_first(), c, in_folder, out_folder, level);
        assert(dec_forest(post, in_folder, out_folder, level) =~= dec_forest(
            pre,
            in_folder,
            out_folder,
            level,
        ).push(dec_node(c, in_folder, out_folder, level)));
    }
}

/// The exec form of `dec_node`.
fn decorate_node(c: &RawChapter, in_folder: &str, out_folder: &str, level: usize) -> (r:
    ChapterInfo)
    ensures
        info_view(r) == dec_node(raw_view(*c), in_folder@, out_folder@, level as int),
    decreases *c,
{
    proof {
        reveal_strlit(".md");
        reveal_strlit(".html");
        assert(".md"@ =~= md_pat());
        assert(".html"@ =~= html_rep());
    }
    let joined = join_path(out_folder, c.url.as_str());
    let slug = replace_all(joined.as_str(), ".md", ".html");
    let file_url = join_path(in_folder, c.url.as_str());
    let next_lv: usize = if level < usize::MAX {
        level + 1
    } else {
        level
    };
    let mut subs: Vec<ChapterInfo> = Vec::new();
    let n = c.sub_chapters.len();
    let mut i: usize = 0;
    proof {
        lemma_raw_views_len(c.sub_chapters@);
        assert(raw_views(c.sub_chapters@).take(0) =~= Seq::<RawChapterS>::empty());
        assert(info_views(subs@) =~= Seq::<ChapterInfoS>::empty());
        assert(dec_forest(raw_views(c.sub_chapters@).take(0), in_folder@, out_folder@,
            next_lv as int) =~= Seq::<ChapterInfoS>::empty());
    }
    while i < n
        invariant
            n == c.sub_chapters@.len(),
            0 <= i <= n,
            next_lv as int == next_level(level as int),
            info_views(subs@) == dec_forest(raw_views(c.sub_chapters@).take(i as int), in_folder@,
                out_folder@, next_lv as int),
        decreases n - i,
    {
        let d = decorate_node(&c.sub_chapters[i], in_folder, out_folder, next_lv);
        let ghost pre = subs@;
        subs.push(d);
        proof {
            lemma_info_views_push(pre, subs@, d);
            lemma_raw_views_index(c.sub_chapters@, i as int);
            assert(raw_views(c.sub_chapters@).take(i + 1) =~= raw_views(
                c.sub_chapters@,
            ).take(i as int).push(raw_views(c.sub_chapters@)[i as int]));
            lemma_dec_forest_push(
                raw_views(c.sub_chapters@).take(i as int),
                raw_views(c.sub_chapters@).take(i + 1),
                raw_views(c.sub_chapters@)[i as int],
                in_folder@,
                out_folder@,
                next_lv as int,
            );
        }
        i = i + 1;
    }
    proof {
        assert(raw_views(c.sub_chapters@).take(n as int) =~= raw_views(c.sub_chapters@));
    }
    ChapterInfo {
        name: c.name.clone(),
        level,
        file_url,
        sub_chapters: subs,
        slug,
        output: String::new(),
        next: None,
        previous: None,
        parent: None,
    }
}

/// The exec form of `dec_forest`.
fn decorate_forest(f: &Vec<RawChapter>, in_folder: &str, out_folder: &str, level: usize) -> (r:
    Vec<ChapterInfo>)
    ensures
        info_views(r@) == dec_forest(raw_views(f@), in_folder@, out_folder@, level as int),
{
    let mut out: Vec<ChapterInfo> = Vec::new();
    let n = f.len();
    let mut i: usize = 0;
    proof {
        lemma_raw_views_len(f@);
        assert(raw_views(f@).take(0) =~= Seq::<RawChapterS>::empty());
        assert(info_views(out@) =~= Seq::<ChapterInfoS>::empty());
        assert(dec_forest(raw_views(f@).take(0), in_folder@, out_folder@, level as int) =~= Seq::<
            ChapterInfoS,
        >::empty());
    }
    while i < n
        invariant
            n == f@.len(),
            0 <= i <= n,
            info_views(out@) == dec_forest(raw_views(f@).take(i as int), in_folder@, out_folder@,
                level as int),
        decreases n - i,
    {
        let d = decorate_node(&f[i], in_folder, out_folder, level);
        let ghost pre = out@;
        out.push(d);
        proof {
            lemma_info_views_push(pre, out@, d);
            lemma_raw_views_index(f@, i as int);
            assert(raw_views(f@).take(i + 1) =~= raw_views(f@).take(i as int).push(
                raw_views(f@)[i as int],
            ));
            lemma_dec_forest_push(
                raw_views(f@).take(i as int),
                raw_views(f@).take(i + 1),
                raw_views(f@)[i as int],
                in_folder@,
                out_folder@,
                level as int,
            );
        }
        i = i + 1;
    }
    proof {
        assert(raw_views(f@).take(n as int) =~= raw_views(f@));
    }
    out
}

/// The link under which a chapter is referred to.
pub open spec fn link_of(c: ChapterInfoS) -> LinkS {
    LinkS { name: c.name, slug: c.slug }
}

/// The links of a subtree in reading order: the chapter itself, then its
/// children, depth first.
pub open spec fn plinks_node(c: ChapterInfoS) -> Seq<LinkS>
    decreases c,
{
    seq![link_of(c)] + plinks_forest(c.subs)
}

pub open spec fn plinks_forest(f: Seq<ChapterInfoS>) -> Seq<LinkS>
    decreases f,
{
    if f.len() == 0 {
        Seq::empty()
    } else {
        plinks_node(f[0]) + plinks_forest(f.drop_first())
    }
}

/// The number of chapters in a subtree.
pub open spec fn size_node(c: ChapterInfoS) -> int
    decreases c,
{
    1 + size_forest(c.subs)
}

pub open spec fn size_forest(f: Seq<ChapterInfoS>) -> int
    decreases f,
{
    if f.len() == 0 {
        0int
    } else {
        size_node(f[0]) + size_forest(f.drop_first())
    }
}

proof fn lemma_size_node_pos(c: ChapterInfoS)
    ensures
        size_node(c) >= 1,
    decreases c,
{
    lemma_size_forest_nonneg(c.subs);
}

proof fn lemma_size_forest_nonneg(f: Seq<ChapterInfoS>)
    ensures
        size_forest(f) >= 0,
    decreases f,
{
    if f.len() > 0 {
        lemma_size_node_pos(f[0]);
        lemma_size_forest_nonneg(f.drop_first());
    }
}

proof fn lemma_plinks_len_node(c: ChapterInfoS)
    ensures
        plinks_node(c).len() == size_node(c),
    decreases c,
{
    lemma_plinks_len_forest(c.subs);
}

proof fn lemma_plinks_len_forest(f: Seq<ChapterInfoS>)
    ensures
        plinks_forest(f).len() == size_forest(f),
    decreases f,
{
    if f.len() > 0 {
        lemma_plinks_len_node(f[0]);
        lemma_plinks_len_forest(f.drop_first());
    }
}

proof fn lemma_plinks_forest_push(pre: Seq<ChapterInfoS>, post: Seq<ChapterInfoS>, c: ChapterInfoS)
    requires
        post == pre.push(c),
    ensures
        plinks_forest(post) == plinks_forest(pre) + plinks_node(c),
    decreases pre.len(),
{
    if pre.len() == 0 {
        assert(post[0] == c);
        assert(post.drop_first() =~= Seq::<ChapterInfoS>::empty());
        assert(plinks_forest(post.drop_first()) =~= Seq::<LinkS>::empty());
        assert(plinks_forest(pre) =~= Seq::<LinkS>::empty());
        assert(plinks_forest(post) =~= plinks_forest(pre) + plinks_node(c));
    } else {
        assert(post[0] == pre[0]);
        assert(post.drop_first() =~= pre.drop_first().push(c));
        lemma_plinks_forest_push(pre.drop_first(), post.drop_first(), c);
        assert(plinks_forest(post) =~= plinks_forest(pre) + plinks_node(c));
    }
}

proof fn lemma_size_forest_push(pre: Seq<ChapterInfoS>, post: Seq<ChapterInfoS>, c: ChapterInfoS)
    requires
        post == pre.push(c),
    ensures
        size_forest(post) == size_forest(pre) + size_node(c),
    decreases pre.len(),
{
    if pre.len() == 0 {
        assert(post[0] == c);
        assert(post.drop_first() =~= Seq::<ChapterInfoS>::empty());
        assert(size_forest(post.drop_first()) == 0);
        assert(size_forest(pre) == 0);
    } else {
        assert(post[0] == pre[0]);
        assert(post.drop_first() =~= pre.drop_first().push(c));
        lemma_size_forest_push(pre.drop_first(), post.drop_first(), c);
    }
}

/// The links of a whole forest are what each subtree contributes, in order.
proof fn lemma_size_forest_take_succ(f: Seq<ChapterInfoS>, i: int)
    requires
        0 <= i < f.len(),
    ensures
        size_forest(f.take(i + 1)) == size_forest(f.take(i)) + size_node(f[i]),
        plinks_forest(f.take(i + 1)) == plinks_forest(f.take(i)) + plinks_node(f[i]),
{
    assert(f.take(i + 1) =~= f.take(i).push(f[i]));
    lemma_size_forest_push(f.take(i), f.take(i + 1), f[i]);
    lemma_plinks_forest_push(f.take(i), f.take(i + 1), f[i]);
}

/// Partial subtree counts never pass the total.
proof fn lemma_size_forest_take_bound(f: Seq<ChapterInfoS>, i: int)
    requires
        0 <= i <= f.len(),
    ensures
        size_forest(f.take(i)) <= size_forest(f),
        size_forest(f.take(i)) >= 0,
    decreases f.len() - i,
{
    lemma_size_forest_nonneg(f.take(i));
    if i < f.len() {
        lemma_size_forest_take_succ(f, i);
        lemma_size_node_pos(f[i]);
        lemma_size_forest_take_bound(f, i + 1);
    } else {
        assert(f.take(i) =~= f);
    }
}

/// A chapter with its navigation attached: at reading-order position `k`
/// among the links `all`, its predecessor is the link before it, its
/// successor the link after it — except that the first chapter of the book
/// has no predecessor and the chapter at position `stop` (the last in
/// reading order) has no successor. Children follow, one position further,
/// owned by this chapter.
pub open spec fn thread_node(
    c: ChapterInfoS,
    parent: Option<LinkS>,
    k: int,
    all: Seq<LinkS>,
    stop: int,
) -> ChapterInfoS
    decreases c,
{
    ChapterInfoS {
        name: c.name,
        level: c.level,
        file_url: c.file_url,
        subs: thread_forest(c.subs, Some(link_of(c)), k + 1, all, stop),
        slug: c.slug,
        output: c.output,
        next: if k == stop || k + 1 >= all.len() {
            None
        } else {
            Some(all[k + 1])
        },
        previous: if k == 0 {
            None
        } else {
            Some(all[k - 1])
        },
        parent,
    }
}

pub open spec fn thread_forest(
    f: Seq<ChapterInfoS>,
    parent: Option<LinkS>,
    k: int,
    all: Seq<LinkS>,
    stop: int,
) -> Seq<ChapterInfoS>
    decreases f,
{
    if f.len() == 0 {
        Seq::empty()
    } else {
        seq![thread_node(f[0], parent, k, all, stop)] + thread_forest(
            f.drop_first(),
            parent,
            k + size_node(f[0]),
            all,
            stop,
        )
    }
}

proof fn lemma_thread_forest_push(
    pre: Seq<ChapterInfoS>,
    post: Seq<ChapterInfoS>,
    c: ChapterInfoS,
    parent: Option<LinkS>,
    k: int,
    all: Seq<LinkS>,
    stop: int,
)
    requires
        post == pre.push(c),
    ensures
        thread_forest(post, parent, k, all, stop) == thread_forest(pre, parent, k, all, stop).push(
            thread_node(c, parent, k + size_forest(pre), all, stop),
        ),
    decreases pre.len(),
{
    if pre.len() == 0 {
        assert(post[0] == c);
        assert(post.drop_first() =~= Seq::<ChapterInfoS>::empty());
        assert(thread_forest(post.drop_first(), parent, k + size_node(c), all, stop) =~= Seq::<
            ChapterInfoS,
        >::empty());
        assert(thread_forest(pre, parent, k, all, stop) =~= Seq::<ChapterInfoS>::empty());
        assert(thread_forest(post, parent, k, all, stop) =~= thread_forest(
            pre,
            parent,
            k,
            all,
            stop,
        ).push(thread_node(c, parent, k + size_forest(pre), all, stop)));
    } else {
        assert(post[0] == pre[0]);
        assert(post.drop_first() =~= pre.drop_first().push(c));
        lemma_thread_forest_push(
            pre.drop_first(),
            post.drop_first(),
            c,
            parent,
            k + size_node(pre[0]),
            all,
            stop,
        );
        assert(thread_forest(post, parent, k, all, stop) =~= thread_forest(
            pre,
            parent,
            k,
            all,
            stop,
        ).push(thread_node(c, parent, k + size_forest(pre), all, stop)));
    }
}

/// A forest with all navigation links attached: predecessors and successors
/// follow reading order over the whole book, the first chapter has no
/// predecessor, and the last root chapter has no successor.
pub open spec fn spec_thread(f: Seq<ChapterInfoS>) -> Seq<ChapterInfoS> {
    if f.len() == 0 {
        f
    } else {
        let all = plinks_forest(f);
        let stop = all.len() - 1;
        thread_forest(f, None, 0, all, stop)
    }
}

/// The chapter forest an event list describes, with locations and navigation.
pub open spec fn build_spec(
    ev: Seq<SummaryEventS>,
    in_folder: Seq<char>,
    out_folder: Seq<char>,
) -> Seq<ChapterInfoS> {
    spec_thread(dec_forest(spec_parse_forest(ev), in_folder, out_folder, 1))
}

proof fn lemma_link_views_push(pre: Seq<ChapterLink>, post: Seq<ChapterLink>, l: ChapterLink)
    requires
        post == pre.push(l),
    ensures
        link_views(post) == link_views(pre).push(link_view(l)),
{
    assert forall|j: int| 0 <= j < post.len() implies link_views(post)[j] == link_views(pre).push(
        link_view(l),
    )[j] by {
        if j < pre.len() {
            assert(post[j] == pre[j]);
        } else {
            assert(post[j] == l);
        }
    }
    assert(link_views(post) =~= link_views(pre).push(link_view(l)));
}

/// The exec form of `plinks_node`: appends the subtree's links to `out`.
fn plinks_node_ex(c: &ChapterInfo, out: &mut Vec<ChapterLink>)
    ensures
        link_views(final(out)@) == link_views(old(out)@) + plinks_node(info_view(*c)),
    decreases *c,
{
    let ghost base = out@;
    let own = ChapterLink { name: c.name.clone(), slug: c.slug.clone() };
    proof {
        assert(link_view(own) == link_of(info_view(*c)));
    }
    out.push(own);
    proof {
        lemma_link_views_push(base, out@, own);
    }
    let ghost start = out@;
    let n = c.sub_chapters.len();
    let mut i: usize = 0;
    proof {
        lemma_info_views_len(c.sub_chapters@);
        assert(info_views(c.sub_chapters@).take(0) =~= Seq::<ChapterInfoS>::empty());
        assert(plinks_forest(info_views(c.sub_chapters@).take(0)) =~= Seq::<LinkS>::empty());
        assert(link_views(out@) =~= link_views(start) + plinks_forest(
            info_views(c.sub_chapters@).take(0),
        ));
    }
    while i < n
        invariant
            n == c.sub_chapters@.len(),
            0 <= i <= n,
            link_views(out@) == link_views(start) + plinks_forest(
                info_views(c.sub_chapters@).take(i as int),
            ),
        decreases n - i,
    {
        plinks_node_ex(&c.sub_chapters[i], out);
        proof {
            lemma_info_views_index(c.sub_chapters@, i as int);
            lemma_size_forest_take_succ(info_views(c.sub_chapters@), i as int);
            assert(link_views(out@) =~= link_views(start) + plinks_forest(
                info_views(c.sub_chapters@).take(i + 1),
            ));
        }
        i = i + 1;
    }
    proof {
        assert(info_views(c.sub_chapters@).take(n as int) =~= info_views(c.sub_chapters@));
        assert(link_views(start) =~= link_views(base).push(link_of(info_view(*c))));
        assert(link_views(out@) =~= link_views(base) + plinks_node(info_view(*c)));
    }
}

/// The exec form of `size_node`.
fn size_node_ex(c: &ChapterInfo) -> (r: usize)
    requires
        size_node(info_view(*c)) <= usize::MAX as int,
    ensures
        r as int == size_node(info_view(*c)),
    decreases *c,
{
    let ghost subs = info_views(c.sub_chapters@);
    let mut total: usize = 1;
    let n = c.sub_chapters.len();
    let mut i: usize = 0;
    proof {
        lemma_info_views_len(c.sub_chapters@);
        assert(subs.take(0) =~= Seq::<ChapterInfoS>::empty());
    }
    while i < n
        invariant
            n == c.sub_chapters@.len(),
            subs == info_views(c.sub_chapters@),
            subs.len() == n,
            0 <= i <= n,
            1 + size_forest(subs) <= usize::MAX as int,
            total as int == 1 + size_forest(subs.take(i as int)),
        decreases n - i,
    {
        proof {
            lemma_info_views_index(c.sub_chapters@, i as int);
            lemma_size_forest_take_succ(subs, i as int);
            lemma_size_forest_take_bound(subs, i + 1);
            lemma_size_node_pos(subs[i as int]);
        }
        let s = size_node_ex(&c.sub_chapters[i]);
        total = total + s;
        i = i + 1;
    }
    proof {
        assert(subs.take(n as int) =~= subs);
    }
    total
}

/// The exec form of `thread_forest`.
fn thread_forest_ex(
    f: &Vec<ChapterInfo>,
    parent: &Option<ChapterLink>,
    k: usize,
    all: &Vec<ChapterLink>,
    stop: usize,
) -> (r: Vec<ChapterInfo>)
    requires
        k + size_forest(info_views(f@)) <= all@.len(),
    ensures
        info_views(r@) == thread_forest(info_views(f@), opt_link_view(*parent), k as int,
            link_views(all@), stop as int),
    decreases *f,
{
    let ghost fs = info_views(f@);
    let total = all.len();
    let mut out: Vec<ChapterInfo> = Vec::new();
    let n = f.len();
    let mut i: usize = 0;
    let mut k_cur: usize = k;
    proof {
        lemma_info_views_len(f@);
        assert(fs.take(0) =~= Seq::<ChapterInfoS>::empty());
        assert(info_views(out@) =~= Seq::<ChapterInfoS>::empty());
        assert(thread_forest(fs.take(0), opt_link_view(*parent), k as int, link_views(all@),
            stop as int) =~= Seq::<ChapterInfoS>::empty());
        lemma_size_forest_take_bound(fs, 0);
    }
    while i < n
        invariant
            n == f@.len(),
            fs == info_views(f@),
            fs.len() == n,
            0 <= i <= n,
            all@.len() <= usize::MAX as int,
            k + size_forest(fs) <= all@.len(),
            k_cur as int == k + size_forest(fs.take(i as int)),
            info_views(out@) == thread_forest(fs.take(i as int), opt_link_view(*parent), k as int,
                link_views(all@), stop as int),
        decreases n - i,
    {
        proof {
            lemma_info_views_index(f@, i as int);
            lemma_size_forest_take_succ(fs, i as int);
            lemma_size_forest_take_bound(fs, i + 1);
            lemma_size_node_pos(fs[i as int]);
            lemma_size_forest_take_bound(fs, i as int);
            lemma_size_forest_split_tail(fs, i + 1);
            lemma_size_forest_nonneg(fs.skip(i + 1));
            assert(k_cur + size_node(fs[i as int]) <= all@.len());
        }
        let t = thread_node_ex(&f[i], parent, k_cur, all, stop);
        let s = size_node_ex(&f[i]);
        let ghost pre = out@;
        out.push(t);
        proof {
            lemma_info_views_push(pre, out@, t);
            assert(fs.take(i + 1) =~= fs.take(i as int).push(fs[i as int]));
            lemma_thread_forest_push(
                fs.take(i as int),
                fs.take(i + 1),
                fs[i as int],
                opt_link_view(*parent),
                k as int,
                link_views(all@),
                stop as int,
            );
        }
        k_cur = k_cur + s;
        i = i + 1;
    }
    proof {
        assert(fs.take(n as int) =~= fs);
    }
    out
}

/// What remains after a prefix never counts more than the whole.
proof fn lemma_size_forest_split_tail(f: Seq<ChapterInfoS>, i: int)
    requires
        0 <= i <= f.len(),
    ensures
        size_forest(f) == size_forest(f.take(i)) + size_forest(f.skip(i)),
    decreases f.len() - i,
{
    if i == f.len() {
        assert(f.take(i) =~= f);
        assert(f.skip(i) =~= Seq::<ChapterInfoS>::empty());
    } else {
        lemma_size_forest_take_succ(f, i);
        lemma_size_forest_split_tail(f, i + 1);
        assert(f.skip(i)[0] == f[i]);
        assert(f.skip(i).drop_first() =~= f.skip(i + 1));
        assert(size_forest(f.skip(i)) == size_node(f[i]) + size_forest(f.skip(i + 1)));
    }
}

/// The exec form of `thread_node`.
fn thread_node_ex(
    c: &ChapterInfo,
    parent: &Option<ChapterLink>,
    k: usize,
    all: &Vec<ChapterLink>,
    stop: usize,
) -> (r: ChapterInfo)
    requires
        k + size_node(info_view(*c)) <= all@.len(),
    ensures
        info_view(r) == thread_node(info_view(*c), opt_link_view(*parent), k as int,
            link_views(all@), stop as int),
    decreases *c,
{
    proof {
        lemma_size_node_pos(info_view(*c));
        lemma_size_forest_nonneg(info_views(c.sub_chapters@));
        assert(link_views(all@).len() == all@.len());
    }
    let total = all.len();
    let previous: Option<ChapterLink> = if k == 0 {
        None
    } else {
        Some(all[k - 1].duplicate())
    };
    let next: Option<ChapterLink> = if k == stop || k + 1 >= total {
        None
    } else {
        Some(all[k + 1].duplicate())
    };
    let parent_d = duplicate_opt_link(parent);
    let own: Option<ChapterLink> = Some(
        ChapterLink { name: c.name.clone(), slug: c.slug.clone() },
    );
    proof {
        assert(opt_link_view(own) == Some(link_of(info_view(*c))));
    }
    let subs = thread_forest_ex(&c.sub_chapters, &own, k + 1, all, stop);
    let r = ChapterInfo {
        name: c.name.clone(),
        level: c.level,
        file_url: c.file_url.clone(),
        sub_chapters: subs,
        slug: c.slug.clone(),
        output: c.output.clone(),
        next,
        previous,
        parent: parent_d,
    };
    proof {
        lemma_link_views_index_all(all@);
    }
    r
}

proof fn lemma_link_views_index_all(s: Seq<ChapterLink>)
    ensures
        link_views(s).len() == s.len(),
        forall|j: int| 0 <= j < s.len() ==> link_views(s)[j] == link_view(s[j]),
{
}

/// The chapter forest described by a list of summary events: parsed, its
/// file paths placed under the source root and its slugs under the output
/// root, and threaded with navigation links.
pub fn build_chapters(events: &Vec<SummaryEvent>, in_folder: &str, out_folder: &str) -> (r: Vec<
    ChapterInfo,
>)
    ensures
        info_views(r@) == build_spec(event_views(events@), in_folder@, out_folder@),
{
    let (raw, _consumed) = parse_items(events, 0);
    let dec = decorate_forest(&raw, in_folder, out_folder, 1);
    let ghost decs = info_views(dec@);
    proof {
        lemma_info_views_len(dec@);
    }
    if dec.len() == 0 {
        proof {
            assert(decs =~= Seq::<ChapterInfoS>::empty());
        }
        return dec;
    }
    let mut all: Vec<ChapterLink> = Vec::new();
    let n = dec.len();
    let mut i: usize = 0;
    proof {
        assert(decs.take(0) =~= Seq::<ChapterInfoS>::empty());
        assert(plinks_forest(decs.take(0)) =~= Seq::<LinkS>::empty());
        assert(link_views(all@) =~= Seq::<LinkS>::empty());
    }
    while i < n
        invariant
            n == dec@.len(),
            decs == info_views(dec@),
            decs.len() == n,
            0 <= i <= n,
            link_views(all@) == plinks_forest(decs.take(i as int)),
        decreases n - i,
    {
        plinks_node_ex(&dec[i], &mut all);
        proof {
            lemma_info_views_index(dec@, i as int);
            lemma_size_forest_take_succ(decs, i as int);
            assert(link_views(all@) =~= plinks_forest(decs.take(i + 1)));
        }
        i = i + 1;
    }
    proof {
        assert(decs.take(n as int) =~= decs);
        lemma_plinks_len_forest(decs);
        assert(link_views(all@).len() == all@.len());
        assert(all@.len() == size_forest(decs));
        lemma_info_views_index(dec@, n - 1);
        lemma_size_forest_take_succ(decs, n - 1);
        lemma_size_forest_take_bound(decs, n - 1);
        lemma_size_node_pos(decs[n - 1]);
        assert(size_forest(decs) >= 1);
    }
    let total = all.len();
    let stop = total - 1;
    let out = thread_forest_ex(&dec, &None, 0, &all, stop);
    proof {
        assert(opt_link_view(None) is None);
        assert(info_views(out@) == thread_forest(decs, None, 0, link_views(all@), stop as int));
        assert(stop as int == plinks_forest(decs).len() - 1);
        assert(info_views(out@) == spec_thread(decs));
    }
    out
}

/// The coded events of `content`, decoded: the structural event list of a
/// summary document.
pub fn summary_events(content: &str) -> (r: Vec<SummaryEvent>)
    ensures
        event_views(r@) == events_decode(summary_events_of(content@)),
{
    let pairs = md_summary_events(content);
    decode_events(&pairs)
}

/// The chapter forest of a book summary: `content` holds the nested-list
/// markup, `in_folder` is where the chapter sources live, `out_folder` the
/// output root the slugs live under.
pub fn parse_chapter(content: &str, in_folder: &str, out_folder: &str) -> (r: Vec<ChapterInfo>)
    ensures
        info_views(r@) == build_spec(events_decode(summary_events_of(content@)), in_folder@,
            out_folder@),
{
    let events = summary_events(content);
    build_chapters(&events, in_folder, out_folder)
}

/// A subtree in reading order: the chapter itself, then its children's
/// subtrees.
pub open spec fn flat_node(c: ChapterInfoS) -> Seq<ChapterInfoS>
    decreases c,
{
    seq![c] + flat_forest(c.subs)
}

/// A forest in reading order.
pub open spec fn flat_forest(f: Seq<ChapterInfoS>) -> Seq<ChapterInfoS>
    decreases f,
{
    if f.len() == 0 {
        Seq::empty()
    } else {
        flat_node(f[0]) + flat_forest(f.drop_first())
    }
}

/// A chapter standing at reading-order position `p` carries exactly the
/// navigation the position dictates.
pub open spec fn placed_at(t: ChapterInfoS, p: int, all: Seq<LinkS>, stop: int) -> bool {
    &&& link_of(t) == all[p]
    &&& t.previous == (if p == 0 {
        Option::<LinkS>::None
    } else {
        Some(all[p - 1])
    })
    &&& t.next == (if p == stop || p + 1 >= all.len() {
        Option::<LinkS>::None
    } else {
        Some(all[p + 1])
    })
}

proof fn lemma_flat_thread_node(
    c: ChapterInfoS,
    parent: Option<LinkS>,
    k: int,
    all: Seq<LinkS>,
    stop: int,
)
    requires
        0 <= k,
        k + size_node(c) <= all.len(),
        plinks_node(c) == all.subrange(k, k + size_node(c)),
    ensures
        flat_node(thread_node(c, parent, k, all, stop)).len() == size_node(c),
        forall|j: int|
            0 <= j < size_node(c) ==> placed_at(
                #[trigger] flat_node(thread_node(c, parent, k, all, stop))[j],
                k + j,
                all,
                stop,
            ),
    decreases c,
{
    lemma_size_node_pos(c);
    lemma_size_forest_nonneg(c.subs);
    lemma_plinks_len_node(c);
    lemma_plinks_len_forest(c.subs);
    let tn = thread_node(c, parent, k, all, stop);
    assert(plinks_node(c)[0] == link_of(c));
    assert(all.subrange(k, k + size_node(c))[0] == all[k]);
    assert(link_of(tn) == link_of(c));
    assert(plinks_forest(c.subs) =~= all.subrange(k + 1, k + 1 + size_forest(c.subs))) by {
        assert forall|j: int| 0 <= j < size_forest(c.subs) implies plinks_forest(c.subs)[j] == all[k
            + 1 + j] by {
            assert(plinks_node(c)[j + 1] == plinks_forest(c.subs)[j]);
            assert(all.subrange(k, k + size_node(c))[j + 1] == all[k + 1 + j]);
        }
    }
    lemma_flat_thread_forest(c.subs, Some(link_of(c)), k + 1, all, stop);
    let tf = thread_forest(c.subs, Some(link_of(c)), k + 1, all, stop);
    assert(tn.subs == tf);
    assert(flat_node(tn) == seq![tn] + flat_forest(tf));
    assert(flat_node(tn).len() == size_node(c));
    assert forall|j: int| 0 <= j < size_node(c) implies placed_at(
        #[trigger] flat_node(tn)[j],
        k + j,
        all,
        stop,
    ) by {
        if j == 0 {
            assert(flat_node(tn)[0] == tn);
            assert(placed_at(tn, k, all, stop));
        } else {
            assert(flat_node(tn)[j] == flat_forest(tf)[j - 1]);
            assert(placed_at(flat_forest(tf)[j - 1], k + 1 + (j - 1), all, stop));
        }
    }
}

proof fn lemma_flat_thread_forest(
    f: Seq<ChapterInfoS>,
    parent: Option<LinkS>,
    k: int,
    all: Seq<LinkS>,
    stop: int,
)
    requires
        0 <= k,
        k + size_forest(f) <= all.len(),
        plinks_forest(f) == all.subrange(k, k + size_forest(f)),
    ensures
        flat_forest(thread_forest(f, parent, k, all, stop)).len() == size_forest(f),
        forall|j: int|
            0 <= j < size_forest(f) ==> placed_at(
                #[trigger] flat_forest(thread_forest(f, parent, k, all, stop))[j],
                k + j,
                all,
                stop,
            ),
    decreases f,
{
    lemma_size_forest_nonneg(f);
    if f.len() == 0 {
        assert(thread_forest(f, parent, k, all, stop) =~= Seq::<ChapterInfoS>::empty());
        assert(flat_forest(thread_forest(f, parent, k, all, stop)).len() == 0);
    } else {
        let c0 = f[0];
        let rest = f.drop_first();
        lemma_size_node_pos(c0);
        lemma_size_forest_nonneg(rest);
        lemma_plinks_len_node(c0);
        lemma_plinks_len_forest(rest);
        lemma_plinks_len_forest(f);
        assert(plinks_forest(f) == plinks_node(c0) + plinks_forest(rest));
        assert(plinks_node(c0) =~= all.subrange(k, k + size_node(c0))) by {
            assert forall|j: int| 0 <= j < size_node(c0) implies plinks_node(c0)[j] == all[k
                + j] by {
                assert(plinks_forest(f)[j] == plinks_node(c0)[j]);
                assert(all.subrange(k, k + size_forest(f))[j] == all[k + j]);
            }
        }
        assert(plinks_forest(rest) =~= all.subrange(k + size_node(c0), k + size_node(c0)
            + size_forest(rest))) by {
            assert forall|j: int| 0 <= j < size_forest(rest) implies plinks_forest(rest)[j] == all[k
                + size_node(c0) + j] by {
                assert(plinks_forest(f)[size_node(c0) + j] == plinks_forest(rest)[j]);
                assert(all.subrange(k, k + size_forest(f))[size_node(c0) + j] == all[k + size_node(
                    c0,
                ) + j]);
            }
        }
        lemma_flat_thread_node(c0, parent, k, all, stop);
        lemma_flat_thread_forest(rest, parent, k + size_node(c0), all, stop);
        let tn0 = thread_node(c0, parent, k, all, stop);
        let tfrest = thread_forest(rest, parent, k + size_node(c0), all, stop);
        let tf = thread_forest(f, parent, k, all, stop);
        assert(tf == seq![tn0] + tfrest);
        assert(tf[0] == tn0);
        assert(tf.drop_first() =~= tfrest);
        assert(flat_forest(tf) == flat_node(tn0) + flat_forest(tfrest));
        assert(flat_forest(tf).len() == size_forest(f));
        assert forall|j: int| 0 <= j < size_forest(f) implies placed_at(
            #[trigger] flat_forest(tf)[j],
            k + j,
            all,
            stop,
        ) by {
            if j < size_node(c0) {
                assert(flat_forest(tf)[j] == flat_node(tn0)[j]);
                assert(placed_at(flat_node(tn0)[j], k + j, all, stop));
            } else {
                assert(flat_forest(tf)[j] == flat_forest(tfrest)[j - size_node(c0)]);
                assert(placed_at(flat_forest(tfrest)[j - size_node(c0)], k + size_node(c0) + (j
                    - size_node(c0)), all, stop));
            }
        }
    }
}

proof fn lemma_thread_forest_len(
    f: Seq<ChapterInfoS>,
    parent: Option<LinkS>,
    k: int,
    all: Seq<LinkS>,
    stop: int,
)
    ensures
        thread_forest(f, parent, k, all, stop).len() == f.len(),
    decreases f,
{
    if f.len() > 0 {
        lemma_thread_forest_len(f.drop_first(), parent, k + size_node(f[0]), all, stop);
    }
}

proof fn lemma_thread_forest_index(
    f: Seq<ChapterInfoS>,
    parent: Option<LinkS>,
    k: int,
    all: Seq<LinkS>,
    stop: int,
    i: int,
)
    requires
        0 <= i < f.len(),
    ensures
        thread_forest(f, parent, k, all, stop).len() == f.len(),
        thread_forest(f, parent, k, all, stop)[i] == thread_node(f[i], parent, k + size_forest(
            f.take(i),
        ), all, stop),
    decreases f,
{
    lemma_thread_forest_len(f, parent, k, all, stop);
    if i == 0 {
        assert(f.take(0) =~= Seq::<ChapterInfoS>::empty());
        assert(size_forest(f.take(0)) == 0);
    } else {
        lemma_thread_forest_index(f.drop_first(), parent, k + size_node(f[0]), all, stop, i - 1);
        assert(thread_forest(f, parent, k, all, stop)[i] == thread_forest(
            f.drop_first(),
            parent,
            k + size_node(f[0]),
            all,
            stop,
        )[i - 1]);
        assert(f.drop_first().take(i - 1) =~= f.take(i).drop_first());
        assert(f.take(i)[0] == f[0]);
        assert(size_forest(f.take(i)) == size_node(f[0]) + size_forest(f.take(i).drop_first()));
        assert(f.drop_first()[i - 1] == f[i]);
    }
}

proof fn lemma_dec_forest_len(
    s: Seq<RawChapterS>,
    in_folder: Seq<char>,
    out_folder: Seq<char>,
    level: int,
)
    ensures
        dec_forest(s, in_folder, out_folder, level).len() == s.len(),
    decreases s,
{
    if s.len() > 0 {
        lemma_dec_forest_len(s.drop_first(), in_folder, out_folder, level);
    }
}

/// Every chapter below the roots of `f` carries a parent link, all the way
/// down.
pub open spec fn forest_children_have_parent(f: Seq<ChapterInfoS>) -> bool
    decreases f, 1int,
{
    if f.len() == 0 {
        true
    } else {
        node_children_have_parent(f[0]) && forest_children_have_parent(f.drop_first())
    }
}

pub open spec fn node_children_have_parent(c: ChapterInfoS) -> bool
    decreases c, 2int,
{
    children_all_have_parent(c.subs)
}

pub open spec fn children_all_have_parent(f: Seq<ChapterInfoS>) -> bool
    decreases f, 1int,
{
    if f.len() == 0 {
        true
    } else {
        f[0].parent is Some && node_children_have_parent(f[0]) && children_all_have_parent(
            f.drop_first(),
        )
    }
}

proof fn lemma_thread_parents_node(
    c: ChapterInfoS,
    parent: Option<LinkS>,
    k: int,
    all: Seq<LinkS>,
    stop: int,
)
    ensures
        node_children_have_parent(thread_node(c, parent, k, all, stop)),
    decreases c,
{
    lemma_thread_parents_forest(c.subs, Some(link_of(c)), k + 1, all, stop);
}

proof fn lemma_thread_parents_forest(
    f: Seq<ChapterInfoS>,
    parent: Option<LinkS>,
    k: int,
    all: Seq<LinkS>,
    stop: int,
)
    ensures
        forest_children_have_parent(thread_forest(f, parent, k, all, stop)),
        parent is Some ==> children_all_have_parent(thread_forest(f, parent, k, all, stop)),
    decreases f,
{
    if f.len() > 0 {
        let tf = thread_forest(f, parent, k, all, stop);
        let tn0 = thread_node(f[0], parent, k, all, stop);
        lemma_thread_parents_node(f[0], parent, k, all, stop);
        lemma_thread_parents_forest(f.drop_first(), parent, k + size_node(f[0]), all, stop);
        assert(tf[0] == tn0);
        assert(tf.drop_first() =~= thread_forest(f.drop_first(), parent, k + size_node(f[0]), all,
            stop));
    }
}

/// Law: the builder yields one root chapter per top-level item of the
/// summary; the first root has no predecessor; a last root that owns no
/// chapters of its own — so that it ends the book — has no successor; every
/// root stands without a parent and every deeper chapter carries one. (A
/// last root with children instead continues into them, so that reading
/// order is unbroken; its subtree still ends the book.)
pub proof fn lemma_navigation_roots(ev: Seq<SummaryEventS>, in_folder: Seq<char>, out_folder: Seq<char>)
    ensures
        build_spec(ev, in_folder, out_folder).len() == spec_parse_forest(ev).len(),
        build_spec(ev, in_folder, out_folder).len() > 0 ==> build_spec(ev, in_folder, out_folder)[0].previous is None,
        ({
            let b = build_spec(ev, in_folder, out_folder);
            b.len() > 0 && b[b.len() - 1].subs.len() == 0 ==> b[b.len() - 1].next is None
        }),
        forall|i: int|
            0 <= i < build_spec(ev, in_folder, out_folder).len() ==> (#[trigger] build_spec(
                ev,
                in_folder,
                out_folder,
            )[i]).parent is None,
        forest_children_have_parent(build_spec(ev, in_folder, out_folder)),
{
    let f = dec_forest(spec_parse_forest(ev), in_folder, out_folder, 1);
    lemma_dec_forest_len(spec_parse_forest(ev), in_folder, out_folder, 1);
    let b = build_spec(ev, in_folder, out_folder);
    if f.len() == 0 {
        assert(b =~= f);
    } else {
        let n = f.len() as int;
        let all = plinks_forest(f);
        let stop = all.len() - 1;
        assert(b == thread_forest(f, None, 0, all, stop));
        lemma_thread_forest_len(f, Option::<LinkS>::None, 0, all, stop);
        lemma_thread_forest_index(f, Option::<LinkS>::None, 0, all, stop, 0);
        assert(f.take(0) =~= Seq::<ChapterInfoS>::empty());
        assert(b[0] == thread_node(f[0], Option::<LinkS>::None, 0, all, stop));
        assert(b[0].previous is None);
        lemma_thread_forest_index(f, Option::<LinkS>::None, 0, all, stop, n - 1);
        lemma_plinks_len_forest(f);
        lemma_size_forest_take_succ(f, n - 1);
        assert(f.take(n) =~= f);
        assert(f[n - 1] == f.last());
        assert(b[n - 1] == thread_node(f.last(), Option::<LinkS>::None, size_forest(f.take(n - 1)),
            all, stop));
        if b[n - 1].subs.len() == 0 {
            lemma_thread_forest_len(f.last().subs, Some(link_of(f.last())), size_forest(
                f.take(n - 1),
            ) + 1, all, stop);
            assert(f.last().subs.len() == 0);
            assert(size_forest(f.last().subs) == 0);
            assert(size_node(f.last()) == 1);
            assert(size_forest(f.take(n - 1)) == all.len() - 1);
            assert(b[n - 1].next is None);
        }
        assert forall|i: int| 0 <= i < b.len() implies (#[trigger] b[i]).parent is None by {
            lemma_thread_forest_index(f, Option::<LinkS>::None, 0, all, stop, i);
        }
        lemma_thread_parents_forest(f, Option::<LinkS>::None, 0, all, stop);
    }
}

/// A chapter with its rendered document and its children.
#[derive(Debug)]
pub struct Chapter {
    pub name: String,
    pub slug: String,
    pub file_url: String,
    pub level: usize,
    pub document: crate::document::Document,
    pub sub_chapters: Vec<Chapter>,
    pub next: Option<ChapterLink>,
    pub previous: Option<ChapterLink>,
    pub parent: Option<ChapterLink>,
}

/// A whole book: its chapters and, when configured, the one-page form.
#[derive(Debug)]
pub struct Book {
    pub identifier: String,
    pub slug: String,
    pub folder: String,
    pub info: crate::front_matter::FrontMatter,
    pub chapters: Vec<Chapter>,
    pub complete_book: Option<crate::document::Document>,
}

/// The rendered HTML of a subtree, chapters in reading order.
pub open spec fn concat_content_node(c: Chapter) -> Seq<char>
    decreases c,
{
    c.document.content@ + concat_content_forest(c.sub_chapters@)
}

pub open spec fn concat_content_forest(f: Seq<Chapter>) -> Seq<char>
    decreases f,
{
    if f.len() == 0 {
        Seq::empty()
    } else {
        concat_content_node(f[0]) + concat_content_forest(f.drop_first())
    }
}

/// The section anchors of a subtree, chapters in reading order.
pub open spec fn concat_sections_node(c: Chapter) -> Seq<(Seq<char>, Seq<char>)>
    decreases c,
{
    c.document.sections.deep_view() + concat_sections_forest(c.sub_chapters@)
}

pub open spec fn concat_sections_forest(f: Seq<Chapter>) -> Seq<(Seq<char>, Seq<char>)>
    decreases f,
{
    if f.len() == 0 {
        Seq::empty()
    } else {
        concat_sections_node(f[0]) + concat_sections_forest(f.drop_first())
    }
}

/// Append one subtree's HTML and section anchors to the running buffers.
fn concat_chapter(c: &Chapter, buffer: &mut String, sections: &mut Vec<(String, String)>)
    ensures
        final(buffer)@ == old(buffer)@ + concat_content_node(*c),
        final(sections).deep_view() == old(sections).deep_view() + concat_sections_node(*c),
    decreases *c,
{
    buffer.append(c.document.content.as_str());
    let ghost buf_base = buffer@;
    let ghost sec_base = sections.deep_view();
    let n = c.document.sections.len();
    let mut k: usize = 0;
    while k < n
        invariant
            n == c.document.sections@.len(),
            0 <= k <= n,
            buffer@ == buf_base,
            sections.deep_view() == sec_base + c.document.sections.deep_view().take(k as int),
        decreases n - k,
    {
        let pair = (c.document.sections[k].0.clone(), c.document.sections[k].1.clone());
        let ghost pre = sections.deep_view();
        sections.push(pair);
        proof {
            assert(sections.deep_view() =~= pre.push(
                c.document.sections.deep_view()[k as int],
            )) by {
                assert(sections.deep_view().len() == pre.len() + 1);
                assert(forall|x: int|
                    0 <= x < pre.len() ==> sections.deep_view()[x] == pre[x]);
                assert(sections.deep_view()[pre.len() as int] == pair.deep_view());
                assert(c.document.sections.deep_view()[k as int]
                    == c.document.sections@[k as int].deep_view());
            }
            assert(c.document.sections.deep_view().take(k + 1) =~= c.document.sections.deep_view()
                .take(k as int).push(c.document.sections.deep_view()[k as int]));
        }
        k = k + 1;
    }
    proof {
        assert(c.document.sections.deep_view().take(n as int) =~= c.document.sections.deep_view());
    }
    let m = c.sub_chapters.len();
    let mut i: usize = 0;
    let ghost buf_mid = buffer@;
    let ghost sec_mid = sections.deep_view();
    proof {
        assert(concat_content_forest(c.sub_chapters@.take(0)) =~= Seq::<char>::empty());
        assert(concat_sections_forest(c.sub_chapters@.take(0)) =~= Seq::<
            (Seq<char>, Seq<char>),
        >::empty());
        assert(buffer@ =~= buf_mid + concat_content_forest(c.sub_chapters@.take(0)));
        assert(sections.deep_view() =~= sec_mid + concat_sections_forest(
            c.sub_chapters@.take(0),
        ));
    }
    while i < m
        invariant
            m == c.sub_chapters@.len(),
            0 <= i <= m,
            buffer@ == buf_mid + concat_content_forest(c.sub_chapters@.take(i as int)),
            sections.deep_view() == sec_mid + concat_sections_forest(
                c.sub_chapters@.take(i as int),
            ),
        decreases m - i,
    {
        concat_chapter(&c.sub_chapters[i], buffer, sections);
        proof {
            lemma_concat_forest_take_succ(c.sub_chapters@, i as int);
        }
        i = i + 1;
    }
    proof {
        assert(c.sub_chapters@.take(m as int) =~= c.sub_chapters@);
    }
}

proof fn lemma_concat_forest_take_succ(f: Seq<Chapter>, i: int)
    requires
        0 <= i < f.len(),
    ensures
        concat_content_forest(f.take(i + 1)) == concat_content_forest(f.take(i))
            + concat_content_node(f[i]),
        concat_sections_forest(f.take(i + 1)) == concat_sections_forest(f.take(i))
            + concat_sections_node(f[i]),
{
    assert(f.take(i + 1) =~= f.take(i).push(f[i]));
    lemma_concat_forest_push(f.take(i), f.take(i + 1), f[i]);
}

proof fn lemma_concat_forest_push(pre: Seq<Chapter>, post: Seq<Chapter>, c: Chapter)
    requires
        post == pre.push(c),
    ensures
        concat_content_forest(post) == concat_content_forest(pre) + concat_content_node(c),
        concat_sections_forest(post) == concat_sections_forest(pre) + concat_sections_node(c),
    decreases pre.len(),
{
    if pre.len() == 0 {
        assert(post[0] == c);
        assert(post.drop_first() =~= Seq::<Chapter>::empty());
        assert(concat_content_forest(post.drop_first()) =~= Seq::<char>::empty());
        assert(concat_sections_forest(post.drop_first()) =~= Seq::<(Seq<char>, Seq<char>)>::empty());
        assert(concat_content_forest(pre) =~= Seq::<char>::empty());
        assert(concat_sections_forest(pre) =~= Seq::<(Seq<char>, Seq<char>)>::empty());
        assert(concat_content_forest(post) =~= concat_content_forest(pre) + concat_content_node(c));
        assert(concat_sections_forest(post) =~= concat_sections_forest(pre) + concat_sections_node(
            c,
        ));
    } else {
        assert(post[0] == pre[0]);
        assert(post.drop_first() =~= pre.drop_first().push(c));
        lemma_concat_forest_push(pre.drop_first(), post.drop_first(), c);
        assert(concat_content_forest(post) =~= concat_content_forest(pre) + concat_content_node(c));
        assert(concat_sections_forest(post) =~= concat_sections_forest(pre) + concat_sections_node(
            c,
        ));
    }
}

/// The folder part of a path: what precedes the last separator.
pub open spec fn dir_name_spec(t: Seq<char>) -> Seq<char>
    decreases t.len(),
{
    if t.len() == 0 {
        t
    } else if t[t.len() - 1] == '/' {
        t.drop_last()
    } else {
        dir_name_spec(t.drop_last())
    }
}

fn dir_name_of(path: &str) -> (r: String)
    ensures
        r@ == dir_name_spec(path@),
{
    let n: usize = path.unicode_len();
    let mut i: usize = n;
    while i > 0
        invariant
            n == path@.len(),
            0 <= i <= n,
            forall|j: int| i <= j < n ==> path@[j] != '/',
        decreases i,
    {
        if path.get_char(i - 1) == '/' {
            let seg = path.substring_char(0, i - 1);
            let r = seg.to_owned();
            assert(r@ =~= dir_name_spec(path@)) by {
                lemma_dir_name_after_slash(path@, i as int);
            }
            return r;
        }
        i = i - 1;
    }
    let r = String::new();
    assert(r@ =~= dir_name_spec(path@)) by {
        lemma_dir_name_no_slash(path@);
    }
    r
}

proof fn lemma_dir_name_no_slash(t: Seq<char>)
    requires
        forall|j: int| 0 <= j < t.len() ==> t[j] != '/',
    ensures
        dir_name_spec(t) =~= Seq::<char>::empty(),
    decreases t.len(),
{
    if t.len() > 0 {
        lemma_dir_name_no_slash(t.drop_last());
    }
}

proof fn lemma_dir_name_after_slash(t: Seq<char>, i: int)
    requires
        0 < i <= t.len(),
        t[i - 1] == '/',
        forall|j: int| i <= j < t.len() ==> t[j] != '/',
    ensures
        dir_name_spec(t) =~= t.subrange(0, i - 1),
    decreases t.len(),
{
    if t.len() == i {
        assert(t.drop_last() =~= t.subrange(0, i - 1));
    } else {
        lemma_dir_name_after_slash(t.drop_last(), i);
    }
}

/// The name of the one-page form's output file.
pub open spec fn complete_book_name() -> Seq<char> {
    seq!['c', 'o', 'm', 'p', 'l', 'e', 't', 'e', '_', 'b', 'o', 'o', 'k', '.', 'h', 't', 'm', 'l']
}

impl Book {
    /// The whole book as one document: every chapter's HTML in reading
    /// order, with all section anchors, placed beside the book's first
    /// chapter. The build cache is consulted first and fed on a miss.
    pub fn as_one_document(&self, cache: &mut crate::build_cache::BuildCache) -> (r:
        crate::document::Document)
        requires
            crate::build_cache::wf(*old(cache)),
        ensures
            crate::build_cache::wf(*final(cache)),
            ({
                let slug = join_path_spec(dir_name_spec(self.slug@), complete_book_name());
                let buffer = concat_content_forest(self.chapters@);
                match crate::build_cache::lookup(old(cache)@, slug, buffer) {
                    Some(d) => r.deep_view() == d && final(cache)@ == old(cache)@,
                    None => {
                        &&& r.slug@ == slug
                        &&& r.content@ == buffer
                        &&& r.raw_content@.len() == 0
                        &&& r.filename@ == complete_book_name()
                        &&& r.info.deep_view() == self.info.deep_view()
                        &&& r.sections.deep_view() == concat_sections_forest(self.chapters@)
                        &&& final(cache)@ == old(cache)@.insert(
                            slug,
                            (
                                crate::build_cache::content_hash(r.raw_content@),
                                r.deep_view(),
                            ),
                        )
                    },
                }
            }),
    {
        let mut buffer = String::new();
        let mut sections: Vec<(String, String)> = Vec::new();
        let n = self.chapters.len();
        let mut i: usize = 0;
        proof {
            assert(concat_content_forest(self.chapters@.take(0)) =~= Seq::<char>::empty());
            assert(concat_sections_forest(self.chapters@.take(0)) =~= Seq::<
                (Seq<char>, Seq<char>),
            >::empty());
            assert(buffer@ =~= Seq::<char>::empty() + concat_content_forest(
                self.chapters@.take(0),
            ));
            assert(sections.deep_view() =~= Seq::<(Seq<char>, Seq<char>)>::empty()
                + concat_sections_forest(self.chapters@.take(0)));
        }
        while i < n
            invariant
                n == self.chapters@.len(),
                0 <= i <= n,
                buffer@ == concat_content_forest(self.chapters@.take(i as int)),
                sections.deep_view() == concat_sections_forest(self.chapters@.take(i as int)),
            decreases n - i,
        {
            concat_chapter(&self.chapters[i], &mut buffer, &mut sections);
            proof {
                lemma_concat_forest_take_succ(self.chapters@, i as int);
            }
            i = i + 1;
        }
        proof {
            assert(self.chapters@.take(n as int) =~= self.chapters@);
        }
        let parent = dir_name_of(self.slug.as_str());
        let slug = join_path(parent.as_str(), "complete_book.html");
        proof {
            reveal_strlit("complete_book.html");
            assert("complete_book.html"@ =~= complete_book_name());
        }
        match cache.get_item(slug.as_str(), buffer.as_str()) {
            Some(existing) => existing,
            None => {
                let doc = crate::document::Document::from_multiple(
                    buffer,
                    "",
                    slug.as_str(),
                    "complete_book.html",
                    &self.info,
                    sections,
                );
                proof {
                    reveal_strlit("");
                }
                cache.set_item(slug.as_str(), &doc);
                doc
            },
        }
    }
}

/// Law: navigation is mutually consistent. Reading the built book in
/// document order, every chapter but the last names the chapter standing
/// next as its successor and is named back by it as its predecessor; the
/// first chapter has no predecessor and the last no successor.
#[verifier::rlimit(80)]
pub proof fn lemma_navigation_symmetry(ev: Seq<SummaryEventS>, in_folder: Seq<char>, out_folder: Seq<char>)
    ensures
        ({
            let t = flat_forest(build_spec(ev, in_folder, out_folder));
            &&& forall|j: int|
                0 <= j < t.len() && (#[trigger] t[j]).next is Some ==> j + 1 < t.len() && t[j].next
                    == Some(link_of(t[j + 1])) && t[j + 1].previous == Some(link_of(t[j]))
            &&& forall|j: int| 0 <= j < t.len() - 1 ==> (#[trigger] t[j]).next is Some
            &&& t.len() > 0 ==> t[0].previous is None
            &&& t.len() > 0 ==> t[t.len() - 1].next is None
        }),
{
    let f = dec_forest(spec_parse_forest(ev), in_folder, out_folder, 1);
    let b = build_spec(ev, in_folder, out_folder);
    let t = flat_forest(b);
    if f.len() == 0 {
        assert(b =~= f);
        assert(t.len() == 0);
    } else {
        let all = plinks_forest(f);
        let stop = all.len() - 1;
        assert(b == thread_forest(f, None, 0, all, stop));
        lemma_plinks_len_forest(f);
        assert(plinks_forest(f) =~= all.subrange(0, 0 + size_forest(f)));
        lemma_flat_thread_forest(f, Option::<LinkS>::None, 0, all, stop);
        assert(t.len() == size_forest(f));
        assert forall|j: int|
            0 <= j < t.len() && (#[trigger] t[j]).next is Some implies j + 1 < t.len() && t[j].next
            == Some(link_of(t[j + 1])) && t[j + 1].previous == Some(link_of(t[j])) by {
            assert(placed_at(t[j], j, all, stop));
            assert(t[j].next is Some ==> j != stop && j + 1 < all.len());
            assert(placed_at(t[j + 1], j + 1, all, stop));
        }
        assert forall|j: int| 0 <= j < t.len() - 1 implies (#[trigger] t[j]).next is Some by {
            assert(placed_at(t[j], j, all, stop));
        }
        lemma_size_node_pos(f[0]);
        lemma_size_forest_nonneg(f.drop_first());
        assert(size_forest(f) >= 1);
        assert(placed_at(t[0], 0, all, stop));
        assert(placed_at(t[t.len() - 1], t.len() - 1, all, stop));
    }
}

} // verus!
