//! The decisions made while walking a document's markdown events: which
//! links are rewritten and to what, and how heading sections are collected
//! and anchored.
//!
//! The markdown engine that produces and renders the events is an outside
//! concern; the handlers' rules are owned and verified here.

use vstd::prelude::*;

verus! {

use vstd::string::StrSliceExecFns;
use crate::strings::{match_at, is_match_at, replace_spec, replace_all, dec_str, u32_to_string};
use crate::book::{md_pat, html_rep};
use crate::utils::{sha256_hex_of, hash_string};

/// What a handler pass produces: the rendered content and the heading
/// sections seen, each with its running number.
#[derive(Debug)]
pub struct ParseResult {
    pub content: String,
    pub sections: Vec<(u32, String)>,
}

/// `s` cut at every occurrence of `sep`, scanning left to right; `cur` is
/// the piece read so far.
pub open spec fn split_rec(s: Seq<char>, sep: Seq<char>, cur: Seq<char>) -> Seq<Seq<char>>
    decreases s.len(),
    when sep.len() > 0
{
    if s.len() == 0 {
        seq![cur]
    } else if match_at(s, sep, 0) {
        seq![cur] + split_rec(s.skip(sep.len() as int), sep, Seq::empty())
    } else {
        split_rec(s.drop_first(), sep, cur.push(s[0]))
    }
}

pub open spec fn split_spec(s: Seq<char>, sep: Seq<char>) -> Seq<Seq<char>> {
    split_rec(s, sep, Seq::empty())
}

/// The pieces of `s` between occurrences of `sep`.
pub fn split_by(s: &str, sep: &str) -> (r: Vec<String>)
    requires
        sep@.len() > 0,
    ensures
        r.deep_view() == split_spec(s@, sep@),
{
    let n: usize = s.unicode_len();
    let m: usize = sep.unicode_len();
    let mut out: Vec<String> = Vec::new();
    let mut cur = String::new();
    let mut i: usize = 0;
    proof {
        assert(s@.skip(0) =~= s@);
        assert(out.deep_view() =~= Seq::<Seq<char>>::empty());
        assert(out.deep_view() + split_rec(s@, sep@, cur@) =~= split_rec(s@, sep@, cur@));
    }
    while i < n
        invariant
            n == s@.len(),
            m == sep@.len(),
            m > 0,
            0 <= i <= n,
            split_spec(s@, sep@) == out.deep_view() + split_rec(s@.skip(i as int), sep@, cur@),
        decreases n - i,
    {
        let ghost pre = s@.skip(i as int);
        let ghost out_pre = out@;
        let ghost cur_pre = cur@;
        proof {
            assert(pre[0] == s@[i as int]);
            assert(pre.drop_first() =~= s@.skip(i + 1));
        }
        if m <= n - i && is_match_at(s, sep, i) {
            proof {
                assert(pre.subrange(0, m as int) =~= s@.subrange(i as int, i + m));
                assert(match_at(pre, sep@, 0));
                assert(pre.skip(m as int) =~= s@.skip(i + m));
            }
            let ghost old_deep = out.deep_view();
            out.push(cur);
            cur = String::new();
            i = i + m;
            proof {
                assert forall|x: int| 0 <= x < out@.len() implies out.deep_view()[x] == (if x
                    < out_pre.len() {
                    old_deep[x]
                } else {
                    cur_pre
                }) by {
                    if x < out_pre.len() {
                        assert(out@[x] == out_pre[x]);
                        assert(old_deep[x] == out_pre[x].deep_view());
                    }
                }
                assert(out.deep_view() =~= old_deep.push(cur_pre));
                assert(out.deep_view() + split_rec(s@.skip(i as int), sep@, cur@) =~= old_deep
                    + split_rec(pre, sep@, cur_pre));
            }
        } else {
            proof {
                if m <= n - i {
                    assert(!match_at(s@, sep@, i as int));
                    assert(pre.subrange(0, m as int) =~= s@.subrange(i as int, i + m));
                    assert(!match_at(pre, sep@, 0));
                } else {
                    assert(!match_at(pre, sep@, 0));
                }
            }
            cur.push(s.get_char(i));
            i = i + 1;
            proof {
                assert(cur@ =~= cur_pre.push(pre[0]));
                assert(out.deep_view() + split_rec(s@.skip(i as int), sep@, cur@) =~= out
                    .deep_view() + split_rec(pre, sep@, cur_pre));
            }
        }
    }
    proof {
        assert(s@.skip(n as int) =~= Seq::<char>::empty());
        assert(split_rec(s@.skip(n as int), sep@, cur@) =~= seq![cur@]);
    }
    let ghost out_pre = out@;
    let ghost old_deep = out.deep_view();
    let ghost cur_fin = cur@;
    out.push(cur);
    proof {
        assert forall|x: int| 0 <= x < out@.len() implies out.deep_view()[x] == (if x
            < out_pre.len() {
            old_deep[x]
        } else {
            cur_fin
        }) by {
            if x < out_pre.len() {
                assert(out@[x] == out_pre[x]);
                assert(old_deep[x] == out_pre[x].deep_view());
            }
        }
        assert(out.deep_view() =~= old_deep.push(cur_fin));
        assert(out.deep_view() =~= old_deep + seq![cur_fin]);
    }
    out
}

/// The classification of a link destination.
#[derive(Debug)]
pub enum LinkKind {
    /// An ordinary destination, passed through untouched.
    Plain,
    /// `lnk::name` — resolved through the configured short links.
    Short(String),
    /// `rel::path` — made absolute under the content root.
    Relative(String),
    /// `id::document::fragment` — turned into an in-page anchor.
    Anchor(String, String),
}

pub open spec fn lnk_word() -> Seq<char> {
    seq!['l', 'n', 'k']
}

pub open spec fn rel_word() -> Seq<char> {
    seq!['r', 'e', 'l']
}

pub open spec fn id_word() -> Seq<char> {
    seq!['i', 'd']
}

pub open spec fn double_colon() -> Seq<char> {
    seq![':', ':']
}

/// The parts of a link, around `::`.
pub open spec fn link_parts(link: Seq<char>) -> Seq<Seq<char>> {
    split_spec(link, double_colon())
}

/// Classify a link destination by its `::`-separated parts, as the link
/// rewriting pass does.
pub fn detect_link_type(link: &str) -> (r: LinkKind)
    ensures
        ({
            let parts = link_parts(link@);
            &&& (parts.len() < 2 || parts[0].len() > 3) ==> r is Plain
            &&& (parts.len() >= 2 && parts[0] == lnk_word()) ==> (r matches LinkKind::Short(t)
                && t@ == parts[1])
            &&& (parts.len() >= 2 && parts[0] == rel_word()) ==> (r matches LinkKind::Relative(t)
                && t@ == parts[1])
            &&& (parts.len() == 3 && parts[0] == id_word()) ==> (r matches LinkKind::Anchor(t, f)
                && t@ == parts[1] && f@ == parts[2])
            &&& (parts.len() >= 2 && parts[0].len() <= 3 && parts[0] != lnk_word() && parts[0]
                != rel_word() && !(parts[0] == id_word() && parts.len() == 3)) ==> r is Plain
        }),
{
    proof {
        reveal_strlit("::");
        assert("::"@ =~= double_colon());
        reveal_strlit("lnk");
        reveal_strlit("rel");
        reveal_strlit("id");
        assert("lnk"@ =~= lnk_word());
        assert("rel"@ =~= rel_word());
        assert("id"@ =~= id_word());
    }
    let parts = split_by(link, "::");
    proof {
        assert(forall|x: int|
            0 <= x < parts@.len() ==> #[trigger] parts.deep_view()[x] == parts@[x].deep_view());
    }
    if parts.len() < 2 {
        return LinkKind::Plain;
    }
    if parts[0].as_str().unicode_len() > 3 {
        return LinkKind::Plain;
    }
    let lnk = String::from_str("lnk");
    let rel = String::from_str("rel");
    let idw = String::from_str("id");
    if parts[0].eq(&lnk) {
        return LinkKind::Short(parts[1].clone());
    }
    if parts[0].eq(&rel) {
        return LinkKind::Relative(parts[1].clone());
    }
    if parts[0].eq(&idw) && parts.len() == 3 {
        return LinkKind::Anchor(parts[1].clone(), parts[2].clone());
    }
    LinkKind::Plain
}

/// A `rel::` link made absolute: rooted at `/`, under the base folder, with
/// the source extension rewritten to the output one.
pub fn rewrite_rel_link(base_folder: &str, tag: &str) -> (r: String)
    ensures
        r@ == seq!['/'] + base_folder@ + seq!['/'] + replace_spec(tag@, md_pat(), html_rep()),
{
    proof {
        reveal_strlit(".md");
        reveal_strlit(".html");
        reveal_strlit("/");
        assert(".md"@ =~= md_pat());
        assert(".html"@ =~= html_rep());
    }
    let mut out = String::from_str("/");
    out.append(base_folder);
    out.append("/");
    let rewritten = replace_all(tag, ".md", ".html");
    out.append(rewritten.as_str());
    assert(out@ =~= seq!['/'] + base_folder@ + seq!['/'] + replace_spec(tag@, md_pat(),
        html_rep()));
    out
}

/// An `id::` link turned into an in-page anchor: the target document's
/// identifier hash and the fragment.
pub fn rewrite_id_link(tag: &str, fragment: &str) -> (r: String)
    ensures
        r@ == seq!['#'] + sha256_hex_of(tag@).subrange(0, 8) + seq!['-'] + fragment@,
{
    proof {
        reveal_strlit("#");
        reveal_strlit("-");
    }
    let mut out = String::from_str("#");
    let hashed = hash_string(tag, 8);
    out.append(hashed.as_str());
    out.append("-");
    out.append(fragment);
    assert(out@ =~= seq!['#'] + sha256_hex_of(tag@).subrange(0, 8) + seq!['-'] + fragment@);
    out
}

/// The target of the first short link stored under `key`.
pub open spec fn assoc_lookup(links: Seq<(Seq<char>, Seq<char>)>, key: Seq<char>) -> Option<
    Seq<char>,
>
    decreases links.len(),
{
    if links.len() == 0 {
        None
    } else if links[0].0 == key {
        Some(links[0].1)
    } else {
        assoc_lookup(links.drop_first(), key)
    }
}

/// Resolve a short link name against the configured short links.
pub fn short_link_target(links: &Vec<(String, String)>, tag: &str) -> (r: Option<String>)
    ensures
        match r {
            Some(v) => assoc_lookup(links.deep_view(), tag@) == Some(v@),
            None => assoc_lookup(links.deep_view(), tag@) is None,
        },
{
    let n = links.len();
    let mut i: usize = 0;
    proof {
        assert(links.deep_view().skip(0) =~= links.deep_view());
    }
    while i < n
        invariant
            n == links@.len(),
            0 <= i <= n,
            assoc_lookup(links.deep_view(), tag@) == assoc_lookup(
                links.deep_view().skip(i as int),
                tag@,
            ),
        decreases n - i,
    {
        let ghost pre = links.deep_view().skip(i as int);
        proof {
            assert(pre[0] == links.deep_view()[i as int]);
            assert(links.deep_view()[i as int] == links@[i as int].deep_view());
            assert(pre.drop_first() =~= links.deep_view().skip(i + 1));
        }
        let key = tag.to_owned();
        if links[i].0.eq(&key) {
            return Some(links[i].1.clone());
        }
        i = i + 1;
    }
    proof {
        assert(links.deep_view().skip(n as int) =~= Seq::<(Seq<char>, Seq<char>)>::empty());
    }
    None
}

/// The marker replaced by the section's base identifier.
pub open spec fn id_marker() -> Seq<char> {
    "{identifier}"@
}

/// The marker replaced by the section's running number.
pub open spec fn number_marker() -> Seq<char> {
    "{number}"@
}

/// The anchor HTML injected for one heading: the configured template with
/// the identifier and the running number filled in.
pub fn section_anchor_html(template: &str, identifier: &str, number: u32) -> (r: String)
    ensures
        r@ == replace_spec(
            replace_spec(template@, id_marker(), identifier@),
            number_marker(),
            dec_str(number as int),
        ),
{
    proof {
        reveal_strlit("{identifier}");
        reveal_strlit("{number}");
    }
    let step = replace_all(template, "{identifier}", identifier);
    let num = u32_to_string(number);
    replace_all(step.as_str(), "{number}", num.as_str())
}

/// The stateful pass that collects heading sections and injects their
/// anchors.
#[derive(Debug)]
pub struct SectionEventHandler {
    pub base_identifier: String,
    pub header_section_html: String,
    pub next_text_is_section: bool,
    pub current_header: String,
    pub limit_parsed_sections: Option<usize>,
}

impl SectionEventHandler {
    pub fn new(base_identifier: &str, header_section_html: &str, limit_parsed_sections: Option<
        usize,
    >) -> (r: SectionEventHandler)
        ensures
            r.base_identifier@ == base_identifier@,
            r.header_section_html@ == header_section_html@,
            !r.next_text_is_section,
            r.current_header@.len() == 0,
            r.limit_parsed_sections == limit_parsed_sections,
    {
        SectionEventHandler {
            base_identifier: base_identifier.to_owned(),
            header_section_html: header_section_html.to_owned(),
            next_text_is_section: false,
            current_header: String::new(),
            limit_parsed_sections,
        }
    }

    /// A heading opens: the following text runs belong to its title.
    pub fn on_heading_start(&mut self)
        ensures
            *final(self) == (SectionEventHandler { next_text_is_section: true, ..*old(self) }),
    {
        self.next_text_is_section = true;
    }

    /// A text run: collected when a heading is open, ignored otherwise.
    pub fn on_text(&mut self, text: &str)
        ensures
            old(self).next_text_is_section ==> *final(self) == (SectionEventHandler {
                current_header: final(self).current_header,
                ..*old(self)
            }) && final(self).current_header@ == old(self).current_header@ + text@,
            !old(self).next_text_is_section ==> *final(self) == *old(self),
    {
        if self.next_text_is_section {
            self.current_header.append(text);
        }
    }

    /// A heading closes: number it, record it, and hand back the anchor HTML
    /// to inject — unless the configured section limit cuts it off.
    pub fn on_heading_end(&mut self, result: &mut ParseResult) -> (r: Option<String>)
        requires
            old(result).sections@.len() < u32::MAX as int,
        ensures
            !final(self).next_text_is_section,
            final(self).current_header@.len() == 0,
            ({
                let number = old(result).sections@.len() + 1;
                if (match old(self).limit_parsed_sections {
                    Some(limit) => number > limit as int,
                    None => false,
                }) {
                    r is None && final(result).sections@ == old(result).sections@
                        && final(result).content == old(result).content
                } else {
                    &&& (r matches Some(html) && html@ == replace_spec(
                        replace_spec(old(self).header_section_html@, id_marker(),
                            old(self).base_identifier@),
                        number_marker(),
                        dec_str(number as int),
                    ))
                    &&& final(result).sections@.len() == old(result).sections@.len() + 1
                    &&& forall|k: int|
                        0 <= k < old(result).sections@.len() ==> final(result).sections@[k] == old(
                            result,
                        ).sections@[k]
                    &&& final(result).sections@.last().0 as int == number
                    &&& final(result).sections@.last().1@ == old(self).current_header@
                    &&& final(result).content == old(result).content
                }
            }),
    {
        self.next_text_is_section = false;
        let number_usize = result.sections.len();
        let number: u32 = (number_usize as u32) + 1;
        let over_limit = match self.limit_parsed_sections {
            Some(limit) => number_usize + 1 > limit,
            None => false,
        };
        if over_limit {
            self.current_header = String::new();
            return None;
        }
        let header = self.current_header.clone();
        self.current_header = String::new();
        result.sections.push((number, header));
        let html = section_anchor_html(
            self.header_section_html.as_str(),
            self.base_identifier.as_str(),
            number,
        );
        Some(html)
    }
}

/// The pass that rewrites `lnk::`, `rel::` and `id::` link destinations.
#[derive(Debug)]
pub struct LinksEventHandler {
    pub link_database: Vec<(String, String)>,
    pub base_folder: Option<String>,
}

impl LinksEventHandler {
    pub fn new(links: Vec<(String, String)>, base_folder: Option<String>) -> (r:
        LinksEventHandler)
        ensures
            r.link_database == links,
            r.base_folder == base_folder,
    {
        LinksEventHandler { link_database: links, base_folder }
    }

    /// The destination a link is rewritten to, when it is one of the special
    /// forms; an ordinary link, or a short link with no configured target,
    /// passes through unchanged.
    pub fn rewrite(&self, link: &str) -> (r: Option<String>)
        ensures
            ({
                let parts = link_parts(link@);
                &&& (parts.len() >= 2 && parts[0] == rel_word()) ==> (r matches Some(v) && v@
                    == seq!['/'] + (match self.base_folder {
                    Some(b) => b@,
                    None => Seq::<char>::empty(),
                }) + seq!['/'] + replace_spec(parts[1], md_pat(), html_rep()))
                &&& (parts.len() == 3 && parts[0] == id_word()) ==> (r matches Some(v) && v@
                    == seq!['#'] + sha256_hex_of(parts[1]).subrange(0, 8) + seq!['-'] + parts[2])
                &&& (parts.len() >= 2 && parts[0] == lnk_word()) ==> (match assoc_lookup(
                    self.link_database.deep_view(),
                    parts[1],
                ) {
                    Some(target) => r matches Some(v) && v@ == target,
                    None => r is None,
                })
                &&& (parts.len() < 2 || parts[0].len() > 3) ==> r is None
            }),
    {
        match detect_link_type(link) {
            LinkKind::Plain => None,
            LinkKind::Relative(tag) => {
                let base = match &self.base_folder {
                    Some(b) => b.as_str(),
                    None => "",
                };
                proof {
                    reveal_strlit("");
                }
                Some(rewrite_rel_link(base, tag.as_str()))
            },
            LinkKind::Anchor(tag, fragment) => {
                Some(rewrite_id_link(tag.as_str(), fragment.as_str()))
            },
            LinkKind::Short(tag) => short_link_target(&self.link_database, tag.as_str()),
        }
    }
}

} // verus!
