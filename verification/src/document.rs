//! One rendered content unit — a post, page, or chapter — and the naming
//! rules that place it in the output tree.
//!
//! Rendering markdown to HTML is an outside concern; what is owned here is
//! the document record, its links, and its slug.

use vstd::prelude::*;

verus! {

use crate::front_matter::FrontMatter;
use crate::strings::{dec_str, dec_str_signed, clone_pair_vec};
use crate::utils::{slug_seq, lower_of, sha256_hex_of, hash_string, slugify};

/// The spec-level value of a document link.
pub struct DocumentLinkS {
    pub identifier: Seq<char>,
    pub title: Seq<char>,
    pub desc: Seq<char>,
    pub slug: Seq<char>,
}

/// A non-owning reference to a document: enough to render a link to it.
#[derive(Debug)]
pub struct DocumentLink {
    pub identifier: String,
    pub title: String,
    pub desc: String,
    pub slug: String,
}

impl DeepView for DocumentLink {
    type V = DocumentLinkS;

    open spec fn deep_view(&self) -> DocumentLinkS {
        DocumentLinkS {
            identifier: self.identifier@,
            title: self.title@,
            desc: self.desc@,
            slug: self.slug@,
        }
    }
}

impl DocumentLink {
    /// A value equal to this one in every field.
    pub fn duplicate(&self) -> (r: DocumentLink)
        ensures
            r.deep_view() == self.deep_view(),
    {
        let r = DocumentLink {
            identifier: self.identifier.clone(),
            title: self.title.clone(),
            desc: self.desc.clone(),
            slug: self.slug.clone(),
        };
        r
    }
}

/// The spec-level value of a document.
pub struct DocumentS {
    pub identifier: Seq<char>,
    pub filename: Seq<char>,
    pub info: crate::front_matter::FrontMatterS,
    pub slug: Seq<char>,
    pub content: Seq<char>,
    pub raw_content: Seq<char>,
    pub sections: Seq<(Seq<char>, Seq<char>)>,
    pub similar_documents: Seq<(u32, DocumentLinkS)>,
    pub previous_document: Option<DocumentLinkS>,
    pub next_document: Option<DocumentLinkS>,
    pub updated: bool,
}

/// One source content unit, rendered.
#[derive(Debug)]
pub struct Document {
    /// A stable identifier derived from the file name.
    pub identifier: String,
    pub filename: String,
    pub info: FrontMatter,
    /// The output-relative path.
    pub slug: String,
    /// The rendered HTML.
    pub content: String,
    /// The raw source, kept for content hashing.
    pub raw_content: String,
    /// Extracted heading anchors: identifier and title of each section.
    pub sections: Vec<(String, String)>,
    pub similar_documents: Vec<(u32, DocumentLink)>,
    pub previous_document: Option<DocumentLink>,
    pub next_document: Option<DocumentLink>,
    /// True when this document was re-rendered in the current run.
    pub updated: bool,
}

impl DeepView for Document {
    type V = DocumentS;

    open spec fn deep_view(&self) -> DocumentS {
        DocumentS {
            identifier: self.identifier@,
            filename: self.filename@,
            info: self.info.deep_view(),
            slug: self.slug@,
            content: self.content@,
            raw_content: self.raw_content@,
            sections: self.sections.deep_view(),
            similar_documents: self.similar_documents.deep_view(),
            previous_document: self.previous_document.deep_view(),
            next_document: self.next_document.deep_view(),
            updated: self.updated,
        }
    }
}

impl Document {
    /// The link record under which other documents refer to this one.
    pub fn link(&self) -> (r: DocumentLink)
        ensures
            r.identifier == self.identifier,
            r.title == self.info.title,
            r.desc == self.info.description,
            r.slug == self.slug,
    {
        DocumentLink {
            identifier: self.identifier.clone(),
            title: self.info.title.clone(),
            desc: self.info.description.clone(),
            slug: self.slug.clone(),
        }
    }

    /// A value equal to this one in every field.
    pub fn duplicate(&self) -> (r: Document)
        ensures
            r.deep_view() == self.deep_view(),
    {
        let mut similar: Vec<(u32, DocumentLink)> = Vec::new();
        let mut i: usize = 0;
        while i < self.similar_documents.len()
            invariant
                0 <= i <= self.similar_documents.len(),
                similar.deep_view() == self.similar_documents.deep_view().subrange(0, i as int),
            decreases self.similar_documents.len() - i,
        {
            let entry = (self.similar_documents[i].0, self.similar_documents[i].1.duplicate());
            let ghost olds = similar.deep_view();
            let ghost oldv = similar@;
            similar.push(entry);
            proof {
                assert(olds.len() == i as int);
                assert(similar@ =~= oldv.push(entry));
                assert forall|j: int| 0 <= j < i + 1 implies #[trigger] similar.deep_view()[j]
                    == self.similar_documents.deep_view().subrange(0, i + 1)[j] by {
                    if j < i {
                        assert(similar@[j] == oldv[j]);
                        assert(similar.deep_view()[j] == oldv[j].deep_view());
                        assert(olds[j] == oldv[j].deep_view());
                        assert(olds[j] == self.similar_documents.deep_view()[j]);
                    } else {
                        assert(similar@[j] == entry);
                        assert(similar.deep_view()[j] == entry.deep_view());
                        assert(entry.deep_view().1
                            == self.similar_documents@[i as int].1.deep_view());
                        assert(self.similar_documents.deep_view()[j]
                            == self.similar_documents@[j].deep_view());
                    }
                }
                assert(similar.deep_view() =~= self.similar_documents.deep_view().subrange(
                    0,
                    i + 1,
                ));
            }
            i = i + 1;
        }
        assert(similar.deep_view() =~= self.similar_documents.deep_view());
        let r = Document {
            identifier: self.identifier.clone(),
            filename: self.filename.clone(),
            info: self.info.duplicate(),
            slug: self.slug.clone(),
            content: self.content.clone(),
            raw_content: self.raw_content.clone(),
            sections: clone_pair_vec(&self.sections),
            similar_documents: similar,
            previous_document: match &self.previous_document {
                Some(l) => Some(l.duplicate()),
                None => None,
            },
            next_document: match &self.next_document {
                Some(l) => Some(l.duplicate()),
                None => None,
            },
            updated: self.updated,
        };
        assert(r.sections.deep_view() =~= self.sections.deep_view());
        assert(r.deep_view() =~= self.deep_view());
        r
    }

    /// A document assembled from parts that were rendered elsewhere, as used
    /// for the one-page form of a whole book.
    pub fn from_multiple(
        html_contents: String,
        partial_markdown_contents: &str,
        slug: &str,
        filename: &str,
        info: &FrontMatter,
        sections: Vec<(String, String)>,
    ) -> (r: Document)
        ensures
            r.identifier@ == sha256_hex_of(slug@).subrange(0, 4),
            r.filename@ == filename@,
            r.info.deep_view() == info.deep_view(),
            r.slug@ == slug@,
            r.content == html_contents,
            r.raw_content@ == partial_markdown_contents@,
            r.sections == sections,
            r.similar_documents@.len() == 0,
            r.previous_document is None,
            r.next_document is None,
            !r.updated,
    {
        Document {
            identifier: hash_string(slug, 4),
            filename: filename.to_owned(),
            info: info.duplicate(),
            slug: slug.to_owned(),
            content: html_contents,
            raw_content: partial_markdown_contents.to_owned(),
            sections,
            similar_documents: Vec::new(),
            previous_document: None,
            next_document: None,
            updated: false,
        }
    }
}

/// The slug a document gets from its front matter: either the explicit slug
/// under the base folder, or `/base/year-month-day-title.html` with the
/// title slugified.
pub open spec fn document_slug_spec(fm: FrontMatter, base: Seq<char>) -> Seq<char> {
    match fm.slug {
        Some(s) => seq!['/'] + base + seq!['/'] + s@,
        None => seq!['/'] + base + seq!['/'] + dec_str_signed(fm.date_info.year as int)
            + seq!['-'] + dec_str(fm.date_info.month as int) + seq!['-'] + dec_str(
            fm.date_info.day as int,
        ) + seq!['-'] + slug_seq(lower_of(fm.title@), false, false) + seq![
            '.',
            'h',
            't',
            'm',
            'l',
        ],
    }
}

/// The output location of a document under the folder `slug_base`.
pub fn slug_from_frontmatter(front_matter: &FrontMatter, slug_base: &str) -> (r: String)
    ensures
        r@ == document_slug_spec(*front_matter, slug_base@),
{
    proof {
        reveal_strlit("/");
    }
    let mut out = String::from_str("/");
    out.append(slug_base);
    out.append("/");
    match &front_matter.slug {
        Some(s) => {
            out.append(s.as_str());
            assert(out@ =~= document_slug_spec(*front_matter, slug_base@));
            out
        },
        None => {
            let year = crate::strings::i32_to_string(front_matter.date_info.year);
            let month = crate::strings::u32_to_string(front_matter.date_info.month);
            let day = crate::strings::u32_to_string(front_matter.date_info.day);
            let title = slugify(front_matter.title.as_str());
            out.append(year.as_str());
            out.append("-");
            out.append(month.as_str());
            out.append("-");
            out.append(day.as_str());
            out.append("-");
            out.append(title.as_str());
            out.append(".html");
            proof {
                reveal_strlit("/");
                reveal_strlit("-");
                reveal_strlit(".html");
            }
            assert(out@ =~= document_slug_spec(*front_matter, slug_base@));
            out
        },
    }
}

} // verus!
