use vstd::prelude::*;

use crate::analysis::copy_strings;
use crate::text::{has_substring, str_contains};

verus! {

/// A single knowledge base document with tag-based retrieval metadata.
#[derive(Clone, Debug)]
pub struct KnowledgeDoc {
    pub id: String,
    pub tags: Vec<String>,
    pub title: String,
    pub content: String,
}

/// The contents of a document: id, tags, title, content.
pub type DocView = (Seq<char>, Seq<Seq<char>>, Seq<char>, Seq<char>);

impl DeepView for KnowledgeDoc {
    type V = DocView;

    open spec fn deep_view(&self) -> DocView {
        (self.id@, self.tags.deep_view(), self.title@, self.content@)
    }
}

/// The contents of each document of a list.
pub open spec fn doc_views(docs: Seq<KnowledgeDoc>) -> Seq<DocView> {
    docs.map_values(|d: KnowledgeDoc| d.deep_view())
}

/// What `str::to_lowercase` gives for a text.
pub uninterp spec fn lowercase(s: Seq<char>) -> Seq<char>;

/// `str::to_lowercase` of std: the text with every character replaced by its Unicode
/// lowercase mapping. The mapping itself is std's and is only named here.
#[verifier::external_body]
fn lowercase_string(s: &str) -> (r: String)
    ensures
        r@ == lowercase(s@),
{
    s.to_lowercase()
}

/// How many of `tags` occur in `text` (a tag listed twice counts twice).
pub open spec fn tag_count(text: Seq<char>, tags: Seq<Seq<char>>) -> nat
    decreases tags.len(),
{
    if tags.len() == 0 {
        0
    } else {
        tag_count(text, tags.drop_last()) + if has_substring(text, tags.last()) {
            1nat
        } else {
            0nat
        }
    }
}

/// The number of matching tags of each document.
pub open spec fn doc_counts(text: Seq<char>, docs: Seq<DocView>) -> Seq<nat> {
    docs.map_values(|d: DocView| tag_count(text, d.1))
}

/// Whether document `x` ranks before document `y`: more matching tags, or as many and
/// listed earlier.
pub open spec fn ranks_before(counts: Seq<nat>, x: int, y: int) -> bool {
    counts[x] > counts[y] || (counts[x] == counts[y] && x < y)
}

/// Whether `order` lists the positions of the documents with at least one matching tag, each
/// once, best ranked first.
pub open spec fn ranked(counts: Seq<nat>, order: Seq<int>) -> bool {
    &&& forall|k: int|
        0 <= k < order.len() ==> 0 <= #[trigger] order[k] < counts.len() && counts[order[k]] > 0
    &&& forall|i: int| 0 <= i < counts.len() && counts[i] > 0 ==> #[trigger] order.contains(i)
    &&& forall|a: int, b: int|
        0 <= a < b < order.len() ==> ranks_before(counts, #[trigger] order[a], #[trigger] order[b])
}

/// Whether `r` is the selection of at most `max` documents for the (lowercased) text: the
/// best ranked documents with at least one tag occurring in the text, in rank order.
pub open spec fn relevant_selection(
    text: Seq<char>,
    docs: Seq<DocView>,
    max: nat,
    r: Seq<DocView>,
) -> bool {
    exists|order: Seq<int>|
        #[trigger] ranked(doc_counts(text, docs), order) && r == order.take(
            if max < order.len() {
                max as int
            } else {
                order.len() as int
            },
        ).map_values(|i: int| docs[i])
}

proof fn lemma_ranking_unique(counts: Seq<nat>, o1: Seq<int>, o2: Seq<int>)
    requires
        forall|a: int, b: int|
            0 <= a < b < o1.len() ==> ranks_before(counts, #[trigger] o1[a], #[trigger] o1[b]),
        forall|a: int, b: int|
            0 <= a < b < o2.len() ==> ranks_before(counts, #[trigger] o2[a], #[trigger] o2[b]),
        forall|x: int| o1.contains(x) <==> o2.contains(x),
    ensures
        o1 == o2,
    decreases o1.len(),
{
    if o1.len() == 0 {
        if o2.len() > 0 {
            assert(o2.contains(o2[0]));
        }
        assert(o1 =~= o2);
    } else {
        assert(o1.contains(o1[0]));
        let h = o1[0];
        assert(o2.len() > 0);
        if o2[0] != h {
            assert(o1.contains(o2[0]));
            let j = choose|j: int| 0 <= j < o1.len() && o1[j] == o2[0];
            let k = choose|k: int| 0 <= k < o2.len() && o2[k] == h;
            assert(j > 0 && k > 0);
            assert(ranks_before(counts, o1[0], o1[j]));
            assert(ranks_before(counts, o2[0], o2[k]));
        }
        let t1 = o1.drop_first();
        let t2 = o2.drop_first();
        assert forall|x: int| t1.contains(x) <==> t2.contains(x) by {
            if t1.contains(x) {
                let j = choose|j: int| 0 <= j < t1.len() && t1[j] == x;
                assert(o1[j + 1] == x && ranks_before(counts, o1[0], o1[j + 1]));
                assert(o1.contains(x));
                let k = choose|k: int| 0 <= k < o2.len() && o2[k] == x;
                assert(k > 0);
                assert(t2[k - 1] == x);
            }
            if t2.contains(x) {
                let j = choose|j: int| 0 <= j < t2.len() && t2[j] == x;
                assert(o2[j + 1] == x && ranks_before(counts, o2[0], o2[j + 1]));
                assert(o2.contains(x));
                let k = choose|k: int| 0 <= k < o1.len() && o1[k] == x;
                assert(k > 0);
                assert(t1[k - 1] == x);
            }
        }
        assert forall|a: int, b: int| 0 <= a < b < t1.len() implies ranks_before(
            counts,
            #[trigger] t1[a],
            #[trigger] t1[b],
        ) by {
            assert(t1[a] == o1[a + 1] && t1[b] == o1[b + 1]);
        }
        assert forall|a: int, b: int| 0 <= a < b < t2.len() implies ranks_before(
            counts,
            #[trigger] t2[a],
            #[trigger] t2[b],
        ) by {
            assert(t2[a] == o2[a + 1] && t2[b] == o2[b + 1]);
        }
        lemma_ranking_unique(counts, t1, t2);
        assert(o1 =~= seq![h].add(t1));
        assert(o2 =~= seq![h].add(t2));
    }
}

/// The selection is determined by the text, the documents and `max`: two selections for the
/// same inputs are the same list.
pub proof fn law_selection_is_determined(
    text: Seq<char>,
    docs: Seq<DocView>,
    max: nat,
    r1: Seq<DocView>,
    r2: Seq<DocView>,
)
    requires
        relevant_selection(text, docs, max, r1),
        relevant_selection(text, docs, max, r2),
    ensures
        r1 == r2,
{
    let counts = doc_counts(text, docs);
    let o1 = choose|order: Seq<int>|
        #[trigger] ranked(counts, order) && r1 == order.take(
            if max < order.len() {
                max as int
            } else {
                order.len() as int
            },
        ).map_values(|i: int| docs[i]);
    let o2 = choose|order: Seq<int>|
        #[trigger] ranked(counts, order) && r2 == order.take(
            if max < order.len() {
                max as int
            } else {
                order.len() as int
            },
        ).map_values(|i: int| docs[i]);
    assert forall|x: int| o1.contains(x) <==> o2.contains(x) by {
        if o1.contains(x) {
            let k = choose|k: int| 0 <= k < o1.len() && o1[k] == x;
            assert(0 <= o1[k] < counts.len() && counts[o1[k]] > 0);
        }
        if o2.contains(x) {
            let k = choose|k: int| 0 <= k < o2.len() && o2[k] == x;
            assert(0 <= o2[k] < counts.len() && counts[o2[k]] > 0);
        }
    }
    lemma_ranking_unique(counts, o1, o2);
}

fn tag_hits(text: &str, tags: &Vec<String>) -> (r: usize)
    ensures
        r == tag_count(text@, tags.deep_view()),
{
    let ghost tv = tags.deep_view();
    let mut count: usize = 0;
    let mut i: usize = 0;
    while i < tags.len()
        invariant
            tv == tags.deep_view(),
            i <= tags.len(),
            count <= i,
            count == tag_count(text@, tv.take(i as int)),
        decreases tags.len() - i,
    {
        assert(tv.take(i as int + 1).drop_last() =~= tv.take(i as int));
        if str_contains(text, tags[i].as_str()) {
            count = count + 1;
        }
        i = i + 1;
    }
    assert(tv.take(tags.len() as int) =~= tv);
    count
}

fn clone_doc(d: &KnowledgeDoc) -> (r: KnowledgeDoc)
    ensures
        r.deep_view() == d.deep_view(),
{
    let tags = copy_strings(d.tags.as_slice());
    assert(tags.deep_view() =~= d.tags.deep_view());
    KnowledgeDoc {
        id: d.id.clone(),
        tags,
        title: d.title.clone(),
        content: d.content.clone(),
    }
}

/// Where a document with `c` matching tags goes into `order`: after every document with at
/// least `c` matching tags.
fn insertion_point(counts: &Vec<usize>, order: &Vec<usize>, c: usize) -> (p: usize)
    requires
        forall|k: int| 0 <= k < order@.len() ==> order@[k] < counts@.len(),
        forall|a: int, b: int|
            0 <= a < b < order@.len() ==> counts@[order@[a] as int] >= counts@[order@[b] as int],
    ensures
        p <= order@.len(),
        forall|k: int| 0 <= k < p ==> counts@[order@[k] as int] >= c,
        forall|k: int| p <= k < order@.len() ==> counts@[order@[k] as int] < c,
{
    let mut p: usize = 0;
    while p < order.len() && counts[order[p]] >= c
        invariant
            p <= order@.len(),
            forall|k: int| 0 <= k < order@.len() ==> order@[k] < counts@.len(),
            forall|k: int| 0 <= k < p ==> counts@[order@[k] as int] >= c,
        decreases order.len() - p,
    {
        p = p + 1;
    }
    assert forall|k: int| p <= k < order@.len() implies counts@[order@[k] as int] < c by {
        assert(counts@[order@[p as int] as int] < c);
        if k > p {
            assert(counts@[order@[p as int] as int] >= counts@[order@[k] as int]);
        }
    }
    p
}

/// The positions of the documents with at least one matching tag, best ranked first.
fn rank_documents(counts: &Vec<usize>, Ghost(cnt): Ghost<Seq<nat>>) -> (order: Vec<usize>)
    requires
        cnt.len() == counts@.len(),
        forall|j: int| 0 <= j < cnt.len() ==> cnt[j] == counts@[j] as nat,
    ensures
        ranked(cnt, order@.map_values(|x: usize| x as int)),
{
    let mut order: Vec<usize> = Vec::new();
    let mut i: usize = 0;
    while i < counts.len()
        invariant
            i <= counts@.len(),
            cnt.len() == counts@.len(),
            forall|j: int| 0 <= j < cnt.len() ==> cnt[j] == counts@[j] as nat,
            forall|k: int|
                0 <= k < order@.len() ==> #[trigger] order@[k] < i && cnt[order@[k] as int] > 0,
            forall|j: int|
                0 <= j < i && cnt[j] > 0 ==> exists|k: int|
                    0 <= k < order@.len() && #[trigger] order@[k] == j,
            forall|a: int, b: int|
                0 <= a < b < order@.len() ==> ranks_before(
                    cnt,
                    #[trigger] order@[a] as int,
                    #[trigger] order@[b] as int,
                ),
        decreases counts.len() - i,
    {
        let c = counts[i];
        if c > 0 {
            let p = insertion_point(counts, &order, c);
            let ghost before = order@;
            order.insert(p, i);
            assert(order@ == before.insert(p as int, i));
            assert forall|a: int, b: int| 0 <= a < b < order@.len() implies ranks_before(
                cnt,
                #[trigger] order@[a] as int,
                #[trigger] order@[b] as int,
            ) by {
                if b < p {
                    assert(order@[a] == before[a] && order@[b] == before[b]);
                } else if b == p {
                    assert(order@[a] == before[a]);
                } else if a == p {
                    assert(order@[b] == before[b - 1]);
                } else if a < p {
                    assert(order@[a] == before[a] && order@[b] == before[b - 1]);
                } else {
                    assert(order@[a] == before[a - 1] && order@[b] == before[b - 1]);
                }
            }
            assert forall|j: int| 0 <= j < i + 1 && cnt[j] > 0 implies exists|k: int|
                0 <= k < order@.len() && #[trigger] order@[k] == j by {
                if j == i {
                    assert(order@[p as int] == j);
                } else {
                    let k = choose|k: int| 0 <= k < before.len() && #[trigger] before[k] == j;
                    if k < p {
                        assert(order@[k] == j);
                    } else {
                        assert(order@[k + 1] == j);
                    }
                }
            }
        } else {
            assert forall|j: int| 0 <= j < i + 1 && cnt[j] > 0 implies exists|k: int|
                0 <= k < order@.len() && #[trigger] order@[k] == j by {
                assert(j < i);
            }
        }
        i = i + 1;
    }
    let ghost og = order@.map_values(|x: usize| x as int);
    assert forall|j: int| 0 <= j < cnt.len() && cnt[j] > 0 implies #[trigger] og.contains(j) by {
        let k = choose|k: int| 0 <= k < order@.len() && #[trigger] order@[k] == j;
        assert(og[k] == j);
    }
    assert forall|a: int, b: int| 0 <= a < b < og.len() implies ranks_before(
        cnt,
        #[trigger] og[a],
        #[trigger] og[b],
    ) by {
        assert(og[a] == order@[a] as int && og[b] == order@[b] as int);
    }
    order
}

/// Returns the top `max` documents whose tags occur in `text_lower`, a text already in lower
/// case; the tags are compared as they are written. Documents with more matching tags rank higher, documents with as many keep their
/// order, and documents with no matching tag are left out.
pub fn select_relevant(text_lower: &str, docs: &[KnowledgeDoc], max: usize) -> (r: Vec<
    KnowledgeDoc,
>)
    ensures
        relevant_selection(text_lower@, doc_views(docs@), max as nat, r.deep_view()),
{
    let ghost dv = doc_views(docs@);
    let ghost cnt = doc_counts(text_lower@, dv);
    let mut counts: Vec<usize> = Vec::new();
    let mut i: usize = 0;
    while i < docs.len()
        invariant
            dv == doc_views(docs@),
            cnt == doc_counts(text_lower@, dv),
            i <= docs@.len(),
            counts@.len() == i,
            forall|j: int| 0 <= j < i ==> cnt[j] == #[trigger] counts@[j] as nat,
        decreases docs.len() - i,
    {
        let n = tag_hits(text_lower, &docs[i].tags);
        counts.push(n);
        i = i + 1;
    }
    let order = rank_documents(&counts, Ghost(cnt));
    let ghost og = order@.map_values(|x: usize| x as int);
    let n = if max < order.len() {
        max
    } else {
        order.len()
    };
    let mut out: Vec<KnowledgeDoc> = Vec::new();
    let mut k: usize = 0;
    while k < n
        invariant
            dv == doc_views(docs@),
            og == order@.map_values(|x: usize| x as int),
            ranked(cnt, og),
            cnt.len() == docs@.len(),
            n <= order@.len(),
            k <= n,
            out.deep_view() == og.take(k as int).map_values(|j: int| dv[j]),
        decreases n - k,
    {
        assert(og[k as int] == order@[k as int] as int);
        let d = clone_doc(&docs[order[k]]);
        let ghost prev = out.deep_view();
        out.push(d);
        assert(out.deep_view() =~= og.take(k as int + 1).map_values(|j: int| dv[j])) by {
            assert(out.deep_view() =~= prev.push(d.deep_view()));
        }
        k = k + 1;
    }
    proof {
        let lim = if max < og.len() {
            max as int
        } else {
            og.len() as int
        };
        assert(lim == n);
        assert(ranked(doc_counts(text_lower@, dv), og));
    }
    out
}

/// Returns the top `max` documents whose tags appear as substrings in `findings_text`
/// (compared in lower case). Documents with more matching tags rank higher. Documents with
/// zero matches are excluded.
pub fn retrieve_relevant(findings_text: &str, docs: &[KnowledgeDoc], max: usize) -> (r: Vec<
    KnowledgeDoc,
>)
    ensures
        relevant_selection(
            lowercase(findings_text@),
            doc_views(docs@),
            max as nat,
            r.deep_view(),
        ),
{
    let text_lower = lowercase_string(findings_text);
    select_relevant(text_lower.as_str(), docs, max)
}

} // verus!
