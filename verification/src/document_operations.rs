//! Cross-document work the orchestrator does once all documents are known:
//! ordering by date, threading sibling links, grouping into archives and
//! categories, and ranking similarity candidates.

use vstd::prelude::*;

verus! {

use crate::document::{Document, DocumentS, DocumentLink, DocumentLinkS};

broadcast use vstd::seq_lib::group_to_multiset_ensures;
use crate::list::{Year, Month, Category};
use crate::strings::{lex_lt, lemma_lex_total, str_lt};

/// The link record of a document, at the spec level.
pub open spec fn doc_link_of(d: DocumentS) -> DocumentLinkS {
    DocumentLinkS {
        identifier: d.identifier,
        title: d.info.title,
        desc: d.info.description,
        slug: d.slug,
    }
}

/// Some post of the collection was written in year `y`.
pub open spec fn year_present(s: Seq<DocumentS>, y: i32) -> bool {
    exists|p: int| 0 <= p < s.len() && (#[trigger] s[p]).info.date_info.year == y
}

/// Some post of the collection was written in year `y`, month `m`.
pub open spec fn month_present(s: Seq<DocumentS>, y: i32, m: u32) -> bool {
    exists|p: int|
        0 <= p < s.len() && (#[trigger] s[p]).info.date_info.year == y
            && s[p].info.date_info.month == m
}

/// The year `y` stands in the archive list.
pub open spec fn year_listed(rs: Seq<Year>, y: i32) -> bool {
    exists|a: int| 0 <= a < rs.len() && (#[trigger] rs[a]).name == y
}

/// The month `m` stands in a year's month list.
pub open spec fn month_listed(months: Seq<Month>, m: u32) -> bool {
    exists|b: int| 0 <= b < months.len() && (#[trigger] months[b]).name == m
}

/// Newest first: creation stamps never grow along the list.
pub open spec fn sorted_by_date_desc(s: Seq<DocumentS>) -> bool {
    forall|a: int, b: int|
        0 <= a < b < s.len() ==> s[a].info.created_timestamp >= s[b].info.created_timestamp
}

proof fn lemma_to_multiset_insert<A>(s: Seq<A>, i: int, x: A)
    requires
        0 <= i <= s.len(),
    ensures
        s.insert(i, x).to_multiset() == s.to_multiset().insert(x),
{
    let t = s.insert(i, x);
    s.insert_ensures(i, x);
    assert(t.remove(i) =~= s);
    assert(t[i] == x);
    assert(t.remove(i).to_multiset() =~= t.to_multiset().remove(x));
    assert(t.to_multiset().contains(x)) by {
        assert(t[i] == x);
        assert(t.contains(x));
    }
    assert(t.to_multiset() =~= s.to_multiset().insert(x)) by {
        assert(forall|y: A|
            y != x ==> #[trigger] t.to_multiset().count(y) == t.to_multiset().remove(x).count(y));
        assert(t.to_multiset().count(x) == t.to_multiset().remove(x).count(x) + 1);
    }
}

/// The posts ordered newest first by creation stamp: the same documents,
/// rearranged.
pub fn sort_posts_by_date(posts: Vec<Document>) -> (r: Vec<Document>)
    ensures
        sorted_by_date_desc(r.deep_view()),
        r.deep_view().to_multiset() == posts.deep_view().to_multiset(),
{
    let ghost whole = posts.deep_view();
    let mut input = posts;
    let mut out: Vec<Document> = Vec::new();
    proof {
        assert(out.deep_view() =~= Seq::<DocumentS>::empty());
        assert(Seq::<DocumentS>::empty().to_multiset().add(input.deep_view().to_multiset())
            =~= whole.to_multiset());
    }
    while input.len() > 0
        invariant
            sorted_by_date_desc(out.deep_view()),
            out.deep_view().to_multiset().add(input.deep_view().to_multiset())
                == whole.to_multiset(),
        decreases input.len(),
    {
        let ghost in_pre = input.deep_view();
        let d = input.remove(0);
        proof {
            broadcast use vstd::seq_lib::group_to_multiset_ensures;

            assert(input.deep_view() =~= in_pre.remove(0));
            assert(d.deep_view() == in_pre[0]);
            in_pre.remove_ensures(0);
            assert(in_pre.remove(0).to_multiset() =~= in_pre.to_multiset().remove(in_pre[0]));
            assert(in_pre.contains(in_pre[0]));
        }
        let mut j: usize = 0;
        while j < out.len() && out[j].info.created_timestamp >= d.info.created_timestamp
            invariant
                0 <= j <= out.len(),
                out.deep_view().len() == out@.len(),
                forall|a: int|
                    0 <= a < j ==> out.deep_view()[a].info.created_timestamp
                        >= d.deep_view().info.created_timestamp,
            decreases out.len() - j,
        {
            proof {
                assert(out.deep_view()[j as int] == out@[j as int].deep_view());
            }
            j = j + 1;
        }
        proof {
            assert(j < out@.len() ==> out.deep_view()[j as int].info.created_timestamp
                < d.deep_view().info.created_timestamp);
        }
        let ghost out_pre = out.deep_view();
        let ghost dv = d.deep_view();
        out.insert(j, d);
        proof {
            broadcast use vstd::seq_lib::group_to_multiset_ensures;

            assert(out.deep_view() =~= out_pre.insert(j as int, dv));
            out_pre.insert_ensures(j as int, dv);
            lemma_to_multiset_insert(out_pre, j as int, dv);
            assert forall|a: int, b: int|
                0 <= a < b < out.deep_view().len() implies out.deep_view()[a].info.created_timestamp
                >= out.deep_view()[b].info.created_timestamp by {
                let t = out.deep_view();
                if b < j {
                } else if a < j && b == j {
                } else if a < j && b > j {
                    assert(t[b] == out_pre[b - 1]);
                } else if a == j {
                    assert(t[b] == out_pre[b - 1]);
                    assert(out_pre[b - 1].info.created_timestamp <= out_pre[
                        j as int
                    ].info.created_timestamp);
                } else {
                    assert(t[a] == out_pre[a - 1]);
                    assert(t[b] == out_pre[b - 1]);
                }
            }
            let ghost outm = out_pre.to_multiset();
            let ghost inm = in_pre.to_multiset();
            assert(out.deep_view().to_multiset() =~= outm.insert(dv));
            assert(input.deep_view().to_multiset() =~= inm.remove(dv));
            assert(inm.contains(dv)) by {
                assert(in_pre.contains(dv));
            }
            assert(outm.insert(dv).add(inm.remove(dv)) =~= outm.add(inm));
        }
    }
    proof {
        assert(input.deep_view() =~= Seq::<DocumentS>::empty());
        assert(out.deep_view().to_multiset().add(Seq::<DocumentS>::empty().to_multiset())
            =~= out.deep_view().to_multiset());
    }
    out
}

/// A document unchanged but for its sibling links.
pub open spec fn with_siblings(
    d: DocumentS,
    previous: Option<DocumentLinkS>,
    next: Option<DocumentLinkS>,
) -> DocumentS {
    DocumentS { previous_document: previous, next_document: next, ..d }
}

/// Thread the previous/next links through a list of documents in its order:
/// each document points at its neighbors, the ends point at nothing.
pub fn make_document_siblings(for_documents: &mut Vec<Document>)
    ensures
        final(for_documents)@.len() == old(for_documents)@.len(),
        forall|i: int|
            0 <= i < old(for_documents)@.len() ==> final(for_documents).deep_view()[i]
                == with_siblings(
                old(for_documents).deep_view()[i],
                if i == 0 {
                    None
                } else {
                    Some(doc_link_of(old(for_documents).deep_view()[i - 1]))
                },
                if i == old(for_documents)@.len() - 1 {
                    None
                } else {
                    Some(doc_link_of(old(for_documents).deep_view()[i + 1]))
                },
            ),
{
    let ghost orig = for_documents.deep_view();
    let n = for_documents.len();
    let mut out: Vec<Document> = Vec::new();
    let mut i: usize = 0;
    while i < n
        invariant
            n == for_documents@.len(),
            orig == for_documents.deep_view(),
            0 <= i <= n,
            out@.len() == i as int,
            forall|k: int|
                0 <= k < i ==> out.deep_view()[k] == with_siblings(
                    orig[k],
                    if k == 0 {
                        None
                    } else {
                        Some(doc_link_of(orig[k - 1]))
                    },
                    if k == n - 1 {
                        None
                    } else {
                        Some(doc_link_of(orig[k + 1]))
                    },
                ),
        decreases n - i,
    {
        let mut d = for_documents[i].duplicate();
        if i == 0 {
            d.previous_document = None;
        } else {
            let pl = for_documents[i - 1].link();
            proof {
                assert(for_documents.deep_view()[i - 1] == for_documents@[i - 1].deep_view());
                assert(pl.deep_view() == doc_link_of(orig[i as int - 1]));
            }
            d.previous_document = Some(pl);
        }
        if i + 1 < n {
            let nl = for_documents[i + 1].link();
            proof {
                assert(for_documents.deep_view()[i + 1] == for_documents@[i + 1].deep_view());
                assert(nl.deep_view() == doc_link_of(orig[i as int + 1]));
            }
            d.next_document = Some(nl);
        } else {
            d.next_document = None;
        }
        proof {
            assert(for_documents.deep_view()[i as int] == for_documents@[i as int].deep_view());
            if i > 0 {
                assert(for_documents.deep_view()[i - 1] == for_documents@[i - 1].deep_view());
            }
            if i + 1 < n {
                assert(for_documents.deep_view()[i + 1] == for_documents@[i + 1].deep_view());
            }
            assert(d.deep_view() == with_siblings(
                orig[i as int],
                if i as int == 0 {
                    None
                } else {
                    Some(doc_link_of(orig[i as int - 1]))
                },
                if i as int == n - 1 {
                    None
                } else {
                    Some(doc_link_of(orig[i as int + 1]))
                },
            ));
        }
        let ghost dv = d.deep_view();
        let ghost pre = out@;
        let ghost pre_deep = out.deep_view();
        out.push(d);
        proof {
            assert(out@[i as int] == d);
            assert(out.deep_view()[i as int] == dv);
            assert forall|k: int| 0 <= k < i + 1 implies out.deep_view()[k] == with_siblings(
                orig[k],
                if k == 0 {
                    None
                } else {
                    Some(doc_link_of(orig[k - 1]))
                },
                if k == n - 1 {
                    None
                } else {
                    Some(doc_link_of(orig[k + 1]))
                },
            ) by {
                if k < i {
                    assert(out@[k] == pre[k]);
                    assert(out.deep_view()[k] == pre[k].deep_view());
                    assert(pre_deep[k] == pre[k].deep_view());
                    assert(pre_deep[k] == with_siblings(
                        orig[k],
                        if k == 0 {
                            None
                        } else {
                            Some(doc_link_of(orig[k - 1]))
                        },
                        if k == n - 1 {
                            None
                        } else {
                            Some(doc_link_of(orig[k + 1]))
                        },
                    ));
                } else {
                    assert(out.deep_view()[k] == dv);
                }
            }
        }
        i = i + 1;
    }
    *for_documents = out;
}

/// The posts of year `y` and month `m`, as positions in the collection, in
/// collection order.
pub open spec fn month_members(s: Seq<DocumentS>, y: i32, m: u32) -> Seq<usize>
    decreases s.len(),
{
    if s.len() == 0 {
        Seq::empty()
    } else {
        let rest = month_members(s.drop_last(), y, m);
        if s.last().info.date_info.year == y && s.last().info.date_info.month == m {
            rest.push((s.len() - 1) as usize)
        } else {
            rest
        }
    }
}

/// The number of posts of year `y`.
pub open spec fn year_members(s: Seq<DocumentS>, y: i32) -> Seq<usize>
    decreases s.len(),
{
    if s.len() == 0 {
        Seq::empty()
    } else {
        let rest = year_members(s.drop_last(), y);
        if s.last().info.date_info.year == y {
            rest.push((s.len() - 1) as usize)
        } else {
            rest
        }
    }
}

fn month_posts(posts: &Vec<Document>, y: i32, m: u32) -> (r: Vec<usize>)
    ensures
        r@ == month_members(posts.deep_view(), y, m),
{
    let ghost ds = posts.deep_view();
    let mut out: Vec<usize> = Vec::new();
    let n = posts.len();
    let mut i: usize = 0;
    proof {
        assert(ds.take(0) =~= Seq::<DocumentS>::empty());
        assert(out@ =~= month_members(ds.take(0), y, m));
    }
    while i < n
        invariant
            n == posts@.len(),
            ds == posts.deep_view(),
            ds.len() == n,
            0 <= i <= n,
            out@ == month_members(ds.take(i as int), y, m),
        decreases n - i,
    {
        proof {
            assert(ds.take(i + 1).drop_last() =~= ds.take(i as int));
            assert(ds.take(i + 1).last() == ds[i as int]);
            assert(ds[i as int] == posts@[i as int].deep_view());
        }
        if posts[i].info.date_info.year == y && posts[i].info.date_info.month == m {
            out.push(i);
        }
        i = i + 1;
    }
    proof {
        assert(ds.take(n as int) =~= ds);
    }
    out
}

fn year_count(posts: &Vec<Document>, y: i32) -> (r: usize)
    ensures
        r == year_members(posts.deep_view(), y).len(),
{
    let ghost ds = posts.deep_view();
    let mut count: usize = 0;
    let n = posts.len();
    let mut i: usize = 0;
    proof {
        assert(ds.take(0) =~= Seq::<DocumentS>::empty());
    }
    while i < n
        invariant
            n == posts@.len(),
            ds == posts.deep_view(),
            ds.len() == n,
            0 <= i <= n,
            count <= i,
            count == year_members(ds.take(i as int), y).len(),
        decreases n - i,
    {
        proof {
            assert(ds.take(i + 1).drop_last() =~= ds.take(i as int));
            assert(ds.take(i + 1).last() == ds[i as int]);
            assert(ds[i as int] == posts@[i as int].deep_view());
        }
        if posts[i].info.date_info.year == y {
            count = count + 1;
        }
        i = i + 1;
    }
    proof {
        assert(ds.take(n as int) =~= ds);
    }
    count
}

/// The distinct years of the collection, newest first.
#[verifier::rlimit(50)]
fn distinct_years(posts: &Vec<Document>) -> (r: Vec<i32>)
    ensures
        forall|a: int, b: int| 0 <= a < b < r@.len() ==> r@[a] > r@[b],
        forall|p: int|
            0 <= p < posts@.len() ==> r@.contains(
                (#[trigger] posts.deep_view()[p]).info.date_info.year,
            ),
        forall|a: int| 0 <= a < r@.len() ==> year_present(posts.deep_view(), #[trigger] r@[a]),
{
    let ghost ds = posts.deep_view();
    let mut out: Vec<i32> = Vec::new();
    let n = posts.len();
    let mut i: usize = 0;
    while i < n
        invariant
            n == posts@.len(),
            ds == posts.deep_view(),
            ds.len() == n,
            0 <= i <= n,
            forall|a: int, b: int| 0 <= a < b < out@.len() ==> out@[a] > out@[b],
            forall|p: int| 0 <= p < i ==> out@.contains((#[trigger] ds[p]).info.date_info.year),
            forall|a: int| 0 <= a < out@.len() ==> year_present(ds, #[trigger] out@[a]),
        decreases n - i,
    {
        proof {
            assert(ds[i as int] == posts@[i as int].deep_view());
        }
        let y = posts[i].info.date_info.year;
        let mut j: usize = 0;
        while j < out.len() && out[j] > y
            invariant
                0 <= j <= out@.len(),
                forall|a: int| 0 <= a < j ==> out@[a] > y,
            decreases out@.len() - j,
        {
            j = j + 1;
        }
        if j < out.len() && out[j] == y {
            assert(out@.contains(ds[i as int].info.date_info.year));
        } else {
            let ghost pre = out@;
            out.insert(j, y);
            proof {
                pre.insert_ensures(j as int, y);
                assert(out@ =~= pre.insert(j as int, y));
                assert forall|a: int, b: int| 0 <= a < b < out@.len() implies out@[a] > out@[b] by {
                    if b < j {
                    } else if a < j && b == j {
                    } else if a < j && b > j {
                        assert(out@[b] == pre[b - 1]);
                        if b - 1 > j as int - 1 && b - 1 >= j {
                            assert(pre[b - 1] < y || b - 1 == j as int - 1);
                        }
                        assert(j < pre.len() ==> pre[j as int] < y);
                        if b - 1 == j {
                        } else {
                        }
                    } else if a == j {
                        assert(out@[b] == pre[b - 1]);
                        assert(j < pre.len() ==> pre[j as int] < y);
                    } else {
                        assert(out@[a] == pre[a - 1]);
                        assert(out@[b] == pre[b - 1]);
                    }
                }
                assert(out@[j as int] == y);
                assert(out@.contains(y));
                assert forall|p: int| 0 <= p < i + 1 implies out@.contains(
                    (#[trigger] ds[p]).info.date_info.year,
                ) by {
                    if p < i {
                        let yy = ds[p].info.date_info.year;
                        assert(pre.contains(yy));
                        let w = choose|w: int| 0 <= w < pre.len() && pre[w] == yy;
                        if w < j {
                            assert(out@[w] == yy);
                        } else {
                            assert(out@[w + 1] == yy);
                        }
                    } else {
                        assert(out@[j as int] == y);
                    }
                }
                assert forall|a: int| 0 <= a < out@.len() implies year_present(
                    ds,
                    #[trigger] out@[a],
                ) by {
                    if a < j {
                        assert(out@[a] == pre[a]);
                        assert(year_present(ds, pre[a]));
                    } else if a == j {
                        assert(ds[i as int].info.date_info.year == y);
                        assert(year_present(ds, y));
                    } else {
                        assert(out@[a] == pre[a - 1]);
                        assert(year_present(ds, pre[a - 1]));
                    }
                }
            }
        }
        i = i + 1;
    }
    out
}

/// The distinct months of year `y` in the collection, newest first.
#[verifier::rlimit(50)]
fn distinct_months(posts: &Vec<Document>, y: i32) -> (r: Vec<u32>)
    ensures
        forall|a: int, b: int| 0 <= a < b < r@.len() ==> r@[a] > r@[b],
        forall|p: int|
            0 <= p < posts@.len() && (#[trigger] posts.deep_view()[p]).info.date_info.year == y
                ==> r@.contains(posts.deep_view()[p].info.date_info.month),
        forall|a: int|
            0 <= a < r@.len() ==> month_present(posts.deep_view(), y, #[trigger] r@[a]),
{
    let ghost ds = posts.deep_view();
    let mut out: Vec<u32> = Vec::new();
    let n = posts.len();
    let mut i: usize = 0;
    while i < n
        invariant
            n == posts@.len(),
            ds == posts.deep_view(),
            ds.len() == n,
            0 <= i <= n,
            forall|a: int, b: int| 0 <= a < b < out@.len() ==> out@[a] > out@[b],
            forall|p: int|
                0 <= p < i && (#[trigger] ds[p]).info.date_info.year == y ==> out@.contains(
                    ds[p].info.date_info.month,
                ),
            forall|a: int| 0 <= a < out@.len() ==> month_present(ds, y, #[trigger] out@[a]),
        decreases n - i,
    {
        proof {
            assert(ds[i as int] == posts@[i as int].deep_view());
        }
        if posts[i].info.date_info.year == y {
            let m = posts[i].info.date_info.month;
            let mut j: usize = 0;
            while j < out.len() && out[j] > m
                invariant
                    0 <= j <= out@.len(),
                    forall|a: int| 0 <= a < j ==> out@[a] > m,
                decreases out@.len() - j,
            {
                j = j + 1;
            }
            if j < out.len() && out[j] == m {
                assert(out@.contains(ds[i as int].info.date_info.month));
            } else {
                let ghost pre = out@;
                out.insert(j, m);
                proof {
                    pre.insert_ensures(j as int, m);
                    assert(out@ =~= pre.insert(j as int, m));
                    assert forall|a: int, b: int| 0 <= a < b < out@.len() implies out@[a]
                        > out@[b] by {
                        if b < j {
                        } else if a < j && b == j {
                        } else if a < j && b > j {
                            assert(out@[b] == pre[b - 1]);
                            assert(j < pre.len() ==> pre[j as int] < m);
                        } else if a == j {
                            assert(out@[b] == pre[b - 1]);
                            assert(j < pre.len() ==> pre[j as int] < m);
                        } else {
                            assert(out@[a] == pre[a - 1]);
                            assert(out@[b] == pre[b - 1]);
                        }
                    }
                    assert(out@[j as int] == m);
                    assert(out@.contains(m));
                    assert forall|p: int|
                        0 <= p < i + 1 && (#[trigger] ds[p]).info.date_info.year == y implies out@
                        .contains(ds[p].info.date_info.month) by {
                        if p < i {
                            let mm = ds[p].info.date_info.month;
                            assert(pre.contains(mm));
                            let w = choose|w: int| 0 <= w < pre.len() && pre[w] == mm;
                            if w < j {
                                assert(out@[w] == mm);
                            } else {
                                assert(out@[w + 1] == mm);
                            }
                        } else {
                            assert(out@[j as int] == m);
                        }
                    }
                    assert forall|a: int| 0 <= a < out@.len() implies month_present(
                        ds,
                        y,
                        #[trigger] out@[a],
                    ) by {
                        if a < j {
                            assert(out@[a] == pre[a]);
                            assert(month_present(ds, y, pre[a]));
                        } else if a == j {
                            assert(ds[i as int].info.date_info.year == y);
                            assert(ds[i as int].info.date_info.month == m);
                            assert(month_present(ds, y, m));
                        } else {
                            assert(out@[a] == pre[a - 1]);
                            assert(month_present(ds, y, pre[a - 1]));
                        }
                    }
                }
            }
        }
        i = i + 1;
    }
    out
}

/// The archive: one entry per year present in the collection, newest year
/// first, each holding its months newest first, each month listing its
/// posts' positions in collection order, and each year counting its posts.
pub fn posts_by_date(posts: &Vec<Document>) -> (r: Vec<Year>)
    requires
        posts@.len() <= i32::MAX as int,
    ensures
        forall|a: int, b: int| 0 <= a < b < r@.len() ==> r@[a].name > r@[b].name,
        forall|p: int|
            0 <= p < posts@.len() ==> year_listed(
                r@,
                (#[trigger] posts.deep_view()[p]).info.date_info.year,
            ),
        forall|a: int|
            0 <= a < r@.len() ==> year_present(posts.deep_view(), (#[trigger] r@[a]).name),
        forall|a: int|
            0 <= a < r@.len() ==> (#[trigger] r@[a]).count == year_members(
                posts.deep_view(),
                r@[a].name,
            ).len(),
        forall|a: int, b: int|
            0 <= a < r@.len() && 0 <= b < r@[a].months@.len() ==> (
            #[trigger] r@[a].months@[b]).posts@ == month_members(
                posts.deep_view(),
                r@[a].name,
                r@[a].months@[b].name,
            ),
        forall|a: int, b: int, c: int|
            0 <= a < r@.len() && 0 <= b < c < r@[a].months@.len() ==> (
            #[trigger] r@[a].months@[b]).name > (#[trigger] r@[a].months@[c]).name,
        forall|a: int, m: u32|
            0 <= a < r@.len() && #[trigger] month_present(posts.deep_view(), r@[a].name, m)
                ==> month_listed(r@[a].months@, m),
{
    let years = distinct_years(posts);
    let ghost ds = posts.deep_view();
    let mut out: Vec<Year> = Vec::new();
    let ny = years.len();
    let mut a: usize = 0;
    while a < ny
        invariant
            posts@.len() <= i32::MAX as int,
            ds == posts.deep_view(),
            ny == years@.len(),
            0 <= a <= ny,
            out@.len() == a as int,
            forall|x: int| 0 <= x < a ==> (#[trigger] out@[x]).name == years@[x],
            forall|x: int|
                0 <= x < a ==> (#[trigger] out@[x]).count == year_members(
                    posts.deep_view(),
                    years@[x],
                ).len(),
            forall|x: int, b: int|
                0 <= x < a && 0 <= b < out@[x].months@.len() ==> (
                #[trigger] out@[x].months@[b]).posts@ == month_members(
                    posts.deep_view(),
                    years@[x],
                    out@[x].months@[b].name,
                ),
            forall|x: int, b: int, c: int|
                0 <= x < a && 0 <= b < c < out@[x].months@.len() ==> (
                #[trigger] out@[x].months@[b]).name > (#[trigger] out@[x].months@[c]).name,
            forall|x: int, m: u32|
                0 <= x < a && #[trigger] month_present(ds, years@[x], m) ==> month_listed(
                    out@[x].months@,
                    m,
                ),
        decreases ny - a,
    {
        let y = years[a];
        let months = distinct_months(posts, y);
        let mut month_entries: Vec<Month> = Vec::new();
        let nm = months.len();
        let mut b: usize = 0;
        while b < nm
            invariant
                nm == months@.len(),
                0 <= b <= nm,
                month_entries@.len() == b as int,
                forall|x: int|
                    0 <= x < b ==> (#[trigger] month_entries@[x]).name == months@[x],
                forall|x: int|
                    0 <= x < b ==> (#[trigger] month_entries@[x]).posts@ == month_members(
                        posts.deep_view(),
                        y,
                        months@[x],
                    ),
                forall|x: int, z: int| 0 <= x < z < months@.len() ==> months@[x] > months@[z],
            decreases nm - b,
        {
            let m = months[b];
            let in_month = month_posts(posts, y, m);
            month_entries.push(Month { name: m, posts: in_month });
            b = b + 1;
        }
        let count = year_count(posts, y);
        proof {
            lemma_year_members_bound(posts.deep_view(), y);
        }
        let ghost pre = out@;
        let ghost me = month_entries@;
        out.push(Year { name: y, months: month_entries, count: count as i32 });
        proof {
            assert(forall|x: int| 0 <= x < a ==> out@[x] == pre[x]);
            assert(out@[a as int].count == year_members(posts.deep_view(), years@[a as int]).len());
            assert(out@[a as int].months@ == me);
            assert forall|m: u32| #[trigger] month_present(ds, y, m) implies month_listed(
                me,
                m,
            ) by {
                let p = choose|p: int|
                    0 <= p < ds.len() && (#[trigger] ds[p]).info.date_info.year == y
                        && ds[p].info.date_info.month == m;
                assert(posts.deep_view()[p].info.date_info.year == y);
                assert(months@.contains(m));
                let w = choose|w: int| 0 <= w < months@.len() && months@[w] == m;
                assert(me[w].name == months@[w]);
            }
        }
        a = a + 1;
    }
    proof {
        assert forall|p: int| 0 <= p < posts@.len() implies year_listed(
            out@,
            (#[trigger] posts.deep_view()[p]).info.date_info.year,
        ) by {
            let y = posts.deep_view()[p].info.date_info.year;
            assert(years@.contains(y));
            let w = choose|w: int| 0 <= w < years@.len() && years@[w] == y;
            assert(out@[w].name == y);
        }
        assert forall|a: int| 0 <= a < out@.len() implies year_present(
            posts.deep_view(),
            (#[trigger] out@[a]).name,
        ) by {
            assert(year_present(posts.deep_view(), years@[a]));
        }
        assert forall|a2: int, m: u32|
            0 <= a2 < out@.len() && #[trigger] month_present(posts.deep_view(), out@[a2].name, m)
            implies month_listed(out@[a2].months@, m) by {
            assert(out@[a2].name == years@[a2]);
            assert(month_present(ds, years@[a2], m));
            assert(month_listed(out@[a2].months@, m));
        }
    }
    out
}

/// A year holds no more posts than the collection, so its count fits.
proof fn lemma_year_members_bound(s: Seq<DocumentS>, y: i32)
    ensures
        year_members(s, y).len() <= s.len(),
    decreases s.len(),
{
    if s.len() > 0 {
        lemma_year_members_bound(s.drop_last(), y);
    }
}

/// Which list of names of a document a grouping reads.
#[derive(Debug, Clone, Copy, PartialEq, Eq, Structural)]
pub enum TagField {
    Tags,
    Keywords,
}

pub open spec fn strings_of(d: DocumentS, f: TagField) -> Seq<Seq<char>> {
    match f {
        TagField::Tags => d.info.tags,
        TagField::Keywords => d.info.keywords,
    }
}

/// The document carries the name in the chosen list.
pub open spec fn has_string(d: DocumentS, f: TagField, name: Seq<char>) -> bool {
    exists|t: int| 0 <= t < strings_of(d, f).len() && #[trigger] strings_of(d, f)[t] == name
}

/// Some post of the collection carries the name.
pub open spec fn tag_present(s: Seq<DocumentS>, f: TagField, name: Seq<char>) -> bool {
    exists|p: int| 0 <= p < s.len() && has_string(#[trigger] s[p], f, name)
}

/// The name stands in the category list.
pub open spec fn name_listed(rs: Seq<Category>, name: Seq<char>) -> bool {
    exists|a: int| 0 <= a < rs.len() && (#[trigger] rs[a]).name@ == name
}

/// The posts carrying `name`, as positions in the collection, in collection
/// order.
pub open spec fn tag_members(s: Seq<DocumentS>, f: TagField, name: Seq<char>) -> Seq<usize>
    decreases s.len(),
{
    if s.len() == 0 {
        Seq::empty()
    } else {
        let rest = tag_members(s.drop_last(), f, name);
        if has_string(s.last(), f, name) {
            rest.push((s.len() - 1) as usize)
        } else {
            rest
        }
    }
}

proof fn lemma_tag_members_bound(s: Seq<DocumentS>, f: TagField, name: Seq<char>)
    ensures
        tag_members(s, f, name).len() <= s.len(),
    decreases s.len(),
{
    if s.len() > 0 {
        lemma_tag_members_bound(s.drop_last(), f, name);
    }
}

/// The list of a document the grouping reads.
fn field_strings<'a>(d: &'a Document, f: &TagField) -> (r: &'a Vec<String>)
    ensures
        r.deep_view() == strings_of(d.deep_view(), *f),
{
    match f {
        TagField::Tags => &d.info.tags,
        TagField::Keywords => &d.info.keywords,
    }
}

fn carries_string(d: &Document, f: &TagField, name: &String) -> (r: bool)
    ensures
        r == has_string(d.deep_view(), *f, name@),
{
    let strings = field_strings(d, f);
    let n = strings.len();
    let mut t: usize = 0;
    while t < n
        invariant
            n == strings@.len(),
            strings.deep_view() == strings_of(d.deep_view(), *f),
            0 <= t <= n,
            forall|x: int| 0 <= x < t ==> strings.deep_view()[x] != name@,
        decreases n - t,
    {
        proof {
            assert(strings.deep_view()[t as int] == strings@[t as int].deep_view());
        }
        if strings[t].eq(name) {
            assert(strings_of(d.deep_view(), *f)[t as int] == name@);
            return true;
        }
        t = t + 1;
    }
    proof {
        assert(strings.deep_view().len() == strings@.len());
    }
    false
}

fn tag_posts(posts: &Vec<Document>, f: &TagField, name: &String) -> (r: Vec<usize>)
    ensures
        r@ == tag_members(posts.deep_view(), *f, name@),
{
    let ghost ds = posts.deep_view();
    let mut out: Vec<usize> = Vec::new();
    let n = posts.len();
    let mut i: usize = 0;
    proof {
        assert(ds.take(0) =~= Seq::<DocumentS>::empty());
        assert(out@ =~= tag_members(ds.take(0), *f, name@));
    }
    while i < n
        invariant
            n == posts@.len(),
            ds == posts.deep_view(),
            ds.len() == n,
            0 <= i <= n,
            out@ == tag_members(ds.take(i as int), *f, name@),
        decreases n - i,
    {
        proof {
            assert(ds.take(i + 1).drop_last() =~= ds.take(i as int));
            assert(ds.take(i + 1).last() == ds[i as int]);
            assert(ds[i as int] == posts@[i as int].deep_view());
        }
        if carries_string(&posts[i], f, name) {
            out.push(i);
        }
        i = i + 1;
    }
    proof {
        assert(ds.take(n as int) =~= ds);
    }
    out
}

/// The distinct names of the chosen list across the collection, in
/// descending lexicographic order.
#[verifier::rlimit(50)]
fn distinct_names(posts: &Vec<Document>, f: &TagField) -> (r: Vec<String>)
    ensures
        forall|a: int, b: int| 0 <= a < b < r@.len() ==> lex_lt(r@[b]@, r@[a]@),
        forall|p: int, t: int|
            0 <= p < posts@.len() && 0 <= t < strings_of(
                (#[trigger] posts.deep_view()[p]),
                *f,
            ).len() ==> name_in_list(r@, #[trigger] strings_of(posts.deep_view()[p], *f)[t]),
        forall|a: int| 0 <= a < r@.len() ==> tag_present(posts.deep_view(), *f, (#[trigger] r@[a])@),
{
    let ghost ds = posts.deep_view();
    let mut out: Vec<String> = Vec::new();
    let n = posts.len();
    let mut i: usize = 0;
    while i < n
        invariant
            n == posts@.len(),
            ds == posts.deep_view(),
            ds.len() == n,
            0 <= i <= n,
            forall|a: int, b: int| 0 <= a < b < out@.len() ==> lex_lt(out@[b]@, out@[a]@),
            forall|p: int, t: int|
                0 <= p < i && 0 <= t < strings_of((#[trigger] ds[p]), *f).len() ==> name_in_list(
                    out@,
                    #[trigger] strings_of(ds[p], *f)[t],
                ),
            forall|a: int| 0 <= a < out@.len() ==> tag_present(ds, *f, (#[trigger] out@[a])@),
        decreases n - i,
    {
        proof {
            assert(ds[i as int] == posts@[i as int].deep_view());
        }
        let strings = field_strings(&posts[i], f);
        let m = strings.len();
        let mut t: usize = 0;
        while t < m
            invariant
                m == strings@.len(),
                strings.deep_view() == strings_of(ds[i as int], *f),
                ds.len() == n,
                i < n,
                ds[i as int] == posts@[i as int].deep_view(),
                0 <= t <= m,
                forall|a: int, b: int| 0 <= a < b < out@.len() ==> lex_lt(out@[b]@, out@[a]@),
                forall|p: int, tt: int|
                    0 <= p < i && 0 <= tt < strings_of((#[trigger] ds[p]), *f).len()
                        ==> name_in_list(out@, #[trigger] strings_of(ds[p], *f)[tt]),
                forall|tt: int|
                    0 <= tt < t ==> name_in_list(
                        out@,
                        #[trigger] strings_of(ds[i as int], *f)[tt],
                    ),
                forall|a: int| 0 <= a < out@.len() ==> tag_present(ds, *f, (#[trigger] out@[a])@),
            decreases m - t,
        {
            proof {
                assert(strings.deep_view()[t as int] == strings@[t as int].deep_view());
            }
            let name = &strings[t];
            let mut j: usize = 0;
            while j < out.len() && str_lt(name.as_str(), out[j].as_str())
                invariant
                    0 <= j <= out@.len(),
                    forall|a: int| 0 <= a < j ==> lex_lt(name@, (#[trigger] out@[a])@),
                decreases out@.len() - j,
            {
                j = j + 1;
            }
            if j < out.len() && out[j].eq(name) {
                assert(name_in_list(out@, strings_of(ds[i as int], *f)[t as int])) by {
                    assert(out@[j as int]@ == name@);
                }
            } else {
                let ghost pre = out@;
                proof {
                    if j < pre.len() && !lex_lt(pre[j as int]@, name@) {
                        lemma_lex_total(name@, pre[j as int]@);
                    }
                    assert(j < pre.len() ==> lex_lt(pre[j as int]@, name@));
                }
                out.insert(j, name.clone());
                proof {
                    pre.insert_ensures(j as int, *name);
                    assert(out@ =~= pre.insert(j as int, *name));
                    assert(out@[j as int]@ == name@);
                    assert forall|a: int, b: int| 0 <= a < b < out@.len() implies lex_lt(
                        out@[b]@,
                        out@[a]@,
                    ) by {
                        if b < j {
                        } else if a < j && b == j {
                        } else if a < j && b > j {
                            assert(out@[b] == pre[b - 1]);
                            if b - 1 > j {
                                crate::strings::lemma_lex_trans(pre[b - 1]@, pre[j as int]@, name@);
                            }
                        } else if a == j {
                            assert(out@[b] == pre[b - 1]);
                            if b - 1 > j {
                                crate::strings::lemma_lex_trans(pre[b - 1]@, pre[j as int]@, name@);
                            }
                        } else {
                            assert(out@[a] == pre[a - 1]);
                            assert(out@[b] == pre[b - 1]);
                        }
                    }
                    assert forall|p: int, tt: int|
                        0 <= p < i && 0 <= tt < strings_of((#[trigger] ds[p]), *f).len() implies
                        name_in_list(out@, #[trigger] strings_of(ds[p], *f)[tt]) by {
                        let nm = strings_of(ds[p], *f)[tt];
                        assert(name_in_list(pre, nm));
                        let w = choose|w: int| 0 <= w < pre.len() && (#[trigger] pre[w])@ == nm;
                        if w < j {
                            assert(out@[w]@ == nm);
                        } else {
                            assert(out@[w + 1]@ == nm);
                        }
                    }
                    assert forall|tt: int| 0 <= tt < t + 1 implies name_in_list(
                        out@,
                        #[trigger] strings_of(ds[i as int], *f)[tt],
                    ) by {
                        if tt < t {
                            let nm = strings_of(ds[i as int], *f)[tt];
                            assert(name_in_list(pre, nm));
                            let w = choose|w: int| 0 <= w < pre.len() && (#[trigger] pre[w])@ == nm;
                            if w < j {
                                assert(out@[w]@ == nm);
                            } else {
                                assert(out@[w + 1]@ == nm);
                            }
                        } else {
                            assert(out@[j as int]@ == strings_of(ds[i as int], *f)[t as int]);
                        }
                    }
                    assert forall|a: int| 0 <= a < out@.len() implies tag_present(
                        ds,
                        *f,
                        (#[trigger] out@[a])@,
                    ) by {
                        if a < j {
                            assert(out@[a] == pre[a]);
                            assert(tag_present(ds, *f, pre[a]@));
                        } else if a == j {
                            assert(has_string(ds[i as int], *f, name@)) by {
                                assert(strings_of(ds[i as int], *f)[t as int] == name@);
                            }
                            assert(tag_present(ds, *f, name@));
                        } else {
                            assert(out@[a] == pre[a - 1]);
                            assert(tag_present(ds, *f, pre[a - 1]@));
                        }
                    }
                }
            }
            t = t + 1;
        }
        i = i + 1;
    }
    out
}

/// The name stands in the plain name list.
pub open spec fn name_in_list(ns: Seq<String>, name: Seq<char>) -> bool {
    exists|a: int| 0 <= a < ns.len() && (#[trigger] ns[a])@ == name
}

/// The categories of the collection under the chosen list of names: one
/// entry per distinct name, in descending name order, each listing the posts
/// that carry the name, in collection order, with its count.
pub fn posts_by_array(posts: &Vec<Document>, field: TagField) -> (r: Vec<Category>)
    requires
        posts@.len() <= u32::MAX as int,
    ensures
        forall|a: int, b: int| 0 <= a < b < r@.len() ==> lex_lt((#[trigger] r@[b]).name@, (#[trigger] r@[a]).name@),
        forall|p: int, t: int|
            0 <= p < posts@.len() && 0 <= t < strings_of(
                (#[trigger] posts.deep_view()[p]),
                field,
            ).len() ==> name_listed(r@, #[trigger] strings_of(posts.deep_view()[p], field)[t]),
        forall|a: int|
            0 <= a < r@.len() ==> tag_present(posts.deep_view(), field, (#[trigger] r@[a]).name@),
        forall|a: int|
            0 <= a < r@.len() ==> (#[trigger] r@[a]).posts@ == tag_members(
                posts.deep_view(),
                field,
                r@[a].name@,
            ),
        forall|a: int|
            0 <= a < r@.len() ==> (#[trigger] r@[a]).count == tag_members(
                posts.deep_view(),
                field,
                r@[a].name@,
            ).len(),
{
    let names = distinct_names(posts, &field);
    let mut out: Vec<Category> = Vec::new();
    let nn = names.len();
    let mut a: usize = 0;
    while a < nn
        invariant
            posts@.len() <= u32::MAX as int,
            nn == names@.len(),
            0 <= a <= nn,
            out@.len() == a as int,
            forall|x: int| 0 <= x < a ==> (#[trigger] out@[x]).name@ == names@[x]@,
            forall|x: int|
                0 <= x < a ==> (#[trigger] out@[x]).posts@ == tag_members(
                    posts.deep_view(),
                    field,
                    names@[x]@,
                ),
            forall|x: int|
                0 <= x < a ==> (#[trigger] out@[x]).count == tag_members(
                    posts.deep_view(),
                    field,
                    names@[x]@,
                ).len(),
        decreases nn - a,
    {
        let name = names[a].clone();
        let members = tag_posts(posts, &field, &name);
        let count = members.len();
        proof {
            lemma_tag_members_bound(posts.deep_view(), field, name@);
        }
        out.push(Category { name, count: count as u32, posts: members });
        a = a + 1;
    }
    proof {
        assert forall|p: int, t: int|
            0 <= p < posts@.len() && 0 <= t < strings_of(
                (#[trigger] posts.deep_view()[p]),
                field,
            ).len() implies name_listed(out@, #[trigger] strings_of(posts.deep_view()[p], field)[t]) by {
            let nm = strings_of(posts.deep_view()[p], field)[t];
            assert(name_in_list(names@, nm));
            let w = choose|w: int| 0 <= w < names@.len() && (#[trigger] names@[w])@ == nm;
            assert(out@[w].name@ == nm);
        }
        assert forall|a2: int| 0 <= a2 < out@.len() implies tag_present(
            posts.deep_view(),
            field,
            (#[trigger] out@[a2]).name@,
        ) by {
            assert(tag_present(posts.deep_view(), field, names@[a2]@));
        }
    }
    out
}

/// Scores never grow along the list.
pub open spec fn sorted_by_score_desc(s: Seq<(u32, DocumentLinkS)>) -> bool {
    forall|a: int, b: int| 0 <= a < b < s.len() ==> s[a].0 >= s[b].0
}

/// The `nr` best-scored candidates: the scored list arranged best first,
/// cut after `nr` entries.
pub fn rank_similar(scored: Vec<(u32, DocumentLink)>, nr: usize) -> (r: Vec<(u32, DocumentLink)>)
    ensures
        exists|full: Seq<(u32, DocumentLinkS)>|
            sorted_by_score_desc(full) && #[trigger] full.to_multiset() == scored.deep_view().to_multiset()
                && r.deep_view() == full.take(
                if nr as int <= full.len() {
                    nr as int
                } else {
                    full.len() as int
                },
            ),
{
    let ghost whole = scored.deep_view();
    let mut input = scored;
    let mut out: Vec<(u32, DocumentLink)> = Vec::new();
    proof {
        assert(out.deep_view() =~= Seq::<(u32, DocumentLinkS)>::empty());
        assert(Seq::<(u32, DocumentLinkS)>::empty().to_multiset().add(
            input.deep_view().to_multiset(),
        ) =~= whole.to_multiset());
    }
    while input.len() > 0
        invariant
            sorted_by_score_desc(out.deep_view()),
            out.deep_view().to_multiset().add(input.deep_view().to_multiset())
                == whole.to_multiset(),
        decreases input.len(),
    {
        let ghost in_pre = input.deep_view();
        let d = input.remove(0);
        proof {
            broadcast use vstd::seq_lib::group_to_multiset_ensures;

            assert(input.deep_view() =~= in_pre.remove(0));
            assert(d.deep_view() == in_pre[0]);
            in_pre.remove_ensures(0);
            assert(in_pre.remove(0).to_multiset() =~= in_pre.to_multiset().remove(in_pre[0]));
            assert(in_pre.contains(in_pre[0]));
        }
        let mut j: usize = 0;
        while j < out.len() && out[j].0 >= d.0
            invariant
                0 <= j <= out.len(),
                out.deep_view().len() == out@.len(),
                forall|a: int| 0 <= a < j ==> out.deep_view()[a].0 >= d.deep_view().0,
            decreases out.len() - j,
        {
            proof {
                assert(out.deep_view()[j as int] == out@[j as int].deep_view());
            }
            j = j + 1;
        }
        proof {
            assert(j < out@.len() ==> out.deep_view()[j as int].0 < d.deep_view().0);
        }
        let ghost out_pre = out.deep_view();
        let ghost dv = d.deep_view();
        out.insert(j, d);
        proof {
            broadcast use vstd::seq_lib::group_to_multiset_ensures;

            assert(out.deep_view() =~= out_pre.insert(j as int, dv));
            out_pre.insert_ensures(j as int, dv);
            lemma_to_multiset_insert(out_pre, j as int, dv);
            assert forall|a: int, b: int|
                0 <= a < b < out.deep_view().len() implies out.deep_view()[a].0
                >= out.deep_view()[b].0 by {
                let t = out.deep_view();
                if b < j {
                } else if a < j && b == j {
                } else if a < j && b > j {
                    assert(t[b] == out_pre[b - 1]);
                } else if a == j {
                    assert(t[b] == out_pre[b - 1]);
                    assert(out_pre[b - 1].0 <= out_pre[j as int].0);
                } else {
                    assert(t[a] == out_pre[a - 1]);
                    assert(t[b] == out_pre[b - 1]);
                }
            }
            let ghost outm = out_pre.to_multiset();
            let ghost inm = in_pre.to_multiset();
            assert(out.deep_view().to_multiset() =~= outm.insert(dv));
            assert(input.deep_view().to_multiset() =~= inm.remove(dv));
            assert(inm.contains(dv)) by {
                assert(in_pre.contains(dv));
            }
            assert(outm.insert(dv).add(inm.remove(dv)) =~= outm.add(inm));
        }
    }
    let ghost full = out.deep_view();
    proof {
        assert(input.deep_view() =~= Seq::<(u32, DocumentLinkS)>::empty());
        assert(full.to_multiset().add(Seq::<(u32, DocumentLinkS)>::empty().to_multiset())
            =~= full.to_multiset());
    }
    let ghost pre_cut = out@;
    out.truncate(nr);
    proof {
        if nr as int <= pre_cut.len() {
            assert(out@ =~= pre_cut.subrange(0, nr as int));
            assert forall|x: int| 0 <= x < out@.len() implies out.deep_view()[x] == full.take(
                nr as int,
            )[x] by {
                assert(out@[x] == pre_cut[x]);
                assert(full[x] == pre_cut[x].deep_view());
            }
            assert(out.deep_view() =~= full.take(nr as int));
        } else {
            assert(out@ =~= pre_cut);
            assert(full.take(full.len() as int) =~= full);
        }
    }
    out
}

} // verus!
