//! The collection of posts, ordered by date, and the neighbours of each post
//! in that order.

use vstd::prelude::*;
use crate::date::Date;
use crate::front_matter::{Document, FrontMatterError, Metadata, document_view, parse_document};
use crate::render::{convert_markdown_to_html, page_view};
use crate::text::chars_of;

verus! {

/// A post as the collection sees it: source name, title, date and body.
pub type PostView = (Seq<char>, Seq<char>, Option<Date>, Seq<char>);

/// A parsed post together with the name of the file it came from.
pub struct Post {
    pub name: String,
    pub document: Document,
}

impl View for Post {
    type V = PostView;

    open spec fn view(&self) -> PostView {
        (
            self.name@,
            self.document.metadata.title@,
            self.document.metadata.date,
            self.document.body@,
        )
    }
}

/// The order of dates: undated posts come first, then dated posts by date.
pub open spec fn key_before(a: Option<Date>, b: Option<Date>) -> bool {
    match (a, b) {
        (None, Some(_)) => true,
        (Some(x), Some(y)) => x.before(y),
        _ => false,
    }
}

fn is_key_before(a: Option<Date>, b: Option<Date>) -> (r: bool)
    ensures
        r == key_before(a, b),
{
    match (a, b) {
        (None, Some(_)) => true,
        (Some(x), Some(y)) => x.is_before(&y),
        _ => false,
    }
}

/// Lexicographic order of names, by character code.
pub open spec fn name_before(a: Seq<char>, b: Seq<char>) -> bool
    decreases a.len(),
{
    if a.len() == 0 {
        b.len() > 0
    } else if b.len() == 0 {
        false
    } else if a[0] != b[0] {
        a[0] < b[0]
    } else {
        name_before(a.drop_first(), b.drop_first())
    }
}

proof fn lemma_name_total(a: Seq<char>, b: Seq<char>)
    ensures
        name_before(a, b) || name_before(b, a) || a == b,
        !(name_before(a, b) && name_before(b, a)),
        !name_before(a, a),
    decreases a.len(),
{
    if a.len() > 0 {
        lemma_name_total(a.drop_first(), a.drop_first());
    }
    if a.len() > 0 && b.len() > 0 {
        lemma_name_total(a.drop_first(), b.drop_first());
        if a[0] == b[0] && a.drop_first() == b.drop_first() {
            assert(a =~= seq![a[0]] + a.drop_first());
            assert(b =~= seq![b[0]] + b.drop_first());
        }
    } else if a.len() > 0 {
    } else if b.len() == 0 {
        assert(a =~= b);
    }
}

proof fn lemma_name_transitive(a: Seq<char>, b: Seq<char>, c: Seq<char>)
    requires
        name_before(a, b),
        name_before(b, c),
    ensures
        name_before(a, c),
    decreases a.len(),
{
    if a.len() > 0 && b.len() > 0 && c.len() > 0 && a[0] == b[0] && b[0] == c[0] {
        lemma_name_transitive(a.drop_first(), b.drop_first(), c.drop_first());
    }
}

/// Whether the post `p` sorts strictly before `q`: by date, then by name.
pub open spec fn post_before(p: PostView, q: PostView) -> bool {
    key_before(p.2, q.2) || (p.2 == q.2 && name_before(p.0, q.0))
}

proof fn lemma_post_order(p: PostView, q: PostView, r: PostView)
    ensures
        post_before(p, q) || post_before(q, p) || (p.2 == q.2 && p.0 == q.0),
        post_before(p, q) && post_before(q, r) ==> post_before(p, r),
        !(post_before(p, q) && post_before(q, p)),
{
    lemma_name_total(p.0, q.0);
    if post_before(p, q) && post_before(q, r) && p.2 == q.2 && q.2 == r.2 {
        lemma_name_transitive(p.0, q.0, r.0);
    }
}

/// Whether the post `p` sorts strictly before `q`.
fn is_post_before(p: &Post, q: &Post) -> (r: bool)
    ensures
        r == post_before(p@, q@),
{
    let dp = p.document.metadata.date;
    let dq = q.document.metadata.date;
    if is_key_before(dp, dq) {
        return true;
    }
    if dp != dq {
        return false;
    }
    let a = chars_of(p.name.as_str());
    let b = chars_of(q.name.as_str());
    let mut k: usize = 0;
    assert(a@.subrange(0, a@.len() as int) =~= a@);
    assert(b@.subrange(0, b@.len() as int) =~= b@);
    while k < a.len() && k < b.len() && a[k] == b[k]
        invariant
            k <= a@.len(),
            k <= b@.len(),
            name_before(a@.subrange(k as int, a@.len() as int), b@.subrange(k as int, b@.len() as int))
                == name_before(a@, b@),
        decreases a@.len() - k,
    {
        assert(a@.subrange(k as int, a@.len() as int).drop_first() =~= a@.subrange(k + 1, a@.len() as int));
        assert(b@.subrange(k as int, b@.len() as int).drop_first() =~= b@.subrange(k + 1, b@.len() as int));
        k = k + 1;
    }
    if k == a.len() {
        k < b.len()
    } else if k == b.len() {
        false
    } else {
        a[k] < b[k]
    }
}

/// Posts in ascending order of date, posts of one date by name.
pub open spec fn sorted_by_date(s: Seq<PostView>) -> bool {
    forall|i: int, j: int| 0 <= i < j < s.len() ==> !post_before(s[j], s[i])
}

/// Where the post `p` goes in `s`: after every post that does not sort
/// after it, so that posts with the same date and name keep the order in
/// which they came.
pub open spec fn insert_pos(s: Seq<PostView>, p: PostView) -> int
    decreases s.len(),
{
    if s.len() > 0 && post_before(p, s.last()) {
        insert_pos(s.drop_last(), p)
    } else {
        s.len() as int
    }
}

/// `s` with `p` added in its place.
pub open spec fn insert_sorted(s: Seq<PostView>, p: PostView) -> Seq<PostView> {
    s.insert(insert_pos(s, p), p)
}

proof fn lemma_insert_pos(s: Seq<PostView>, d: PostView)
    requires
        sorted_by_date(s),
    ensures
        0 <= insert_pos(s, d) <= s.len(),
        forall|i: int| 0 <= i < insert_pos(s, d) ==> !post_before(d, #[trigger] s[i]),
        forall|i: int| insert_pos(s, d) <= i < s.len() ==> post_before(d, #[trigger] s[i]),
    decreases s.len(),
{
    if s.len() > 0 && post_before(d, s.last()) {
        let t = s.drop_last();
        assert(sorted_by_date(t));
        lemma_insert_pos(t, d);
        assert forall|i: int| insert_pos(s, d) <= i < s.len() implies post_before(
            d,
            #[trigger] s[i],
        ) by {
            if i < t.len() {
                assert(t[i] == s[i]);
            }
        }
        assert forall|i: int| 0 <= i < insert_pos(s, d) implies !post_before(d, #[trigger] s[i]) by {
            assert(t[i] == s[i]);
        }
    } else if s.len() > 0 {
        assert forall|i: int| 0 <= i < insert_pos(s, d) implies !post_before(d, #[trigger] s[i]) by {
            if i < s.len() - 1 {
                let l = s[s.len() - 1];
                assert(!post_before(l, s[i]));
                lemma_post_order(d, s[i], l);
                lemma_post_order(s[i], l, d);
                lemma_post_order(d, l, s[i]);
            }
        }
    }
}

proof fn lemma_insert_sorted(s: Seq<PostView>, p: PostView)
    requires
        sorted_by_date(s),
    ensures
        sorted_by_date(insert_sorted(s, p)),
        insert_sorted(s, p).len() == s.len() + 1,
{
    lemma_insert_pos(s, p);
    let k = insert_pos(s, p);
    let r = insert_sorted(s, p);
    assert forall|i: int, j: int| 0 <= i < j < r.len() implies !post_before(r[j], r[i]) by {
        if j < k {
            assert(r[i] == s[i] && r[j] == s[j]);
        } else if j == k {
            assert(r[i] == s[i]);
        } else if i < k {
            assert(r[i] == s[i] && r[j] == s[j - 1]);
            assert(post_before(p, s[j - 1]));
            assert(!post_before(p, s[i]));
            lemma_post_order(s[j - 1], s[i], p);
            lemma_post_order(s[i], p, s[j - 1]);
            lemma_post_order(p, s[j - 1], s[i]);
        } else if i == k {
            assert(r[j] == s[j - 1]);
            lemma_post_order(p, s[j - 1], p);
        } else {
            assert(r[i] == s[i - 1] && r[j] == s[j - 1]);
        }
    }
}

/// Posts ordered by date, and posts of one date by name; posts with the same
/// date and name stay in the order in which they were added.
pub struct PostCollection {
    posts: Vec<Post>,
}

impl View for PostCollection {
    type V = Seq<PostView>;

    closed spec fn view(&self) -> Seq<PostView> {
        self.posts@.map_values(|p: Post| p@)
    }
}

/// Index of the previous entry, if there is one, in a sequence of `n`.
pub open spec fn prev_index(n: int, i: int) -> Option<int> {
    if 1 <= i && i - 1 < n {
        Some(i - 1)
    } else {
        None
    }
}

/// Index of the next entry, if there is one, in a sequence of `n`.
pub open spec fn next_index(n: int, i: int) -> Option<int> {
    if 0 <= i && i + 1 < n {
        Some(i + 1)
    } else {
        None
    }
}

impl PostCollection {
    pub open spec fn wf(&self) -> bool {
        sorted_by_date(self@)
    }

    /// An empty collection.
    pub fn new() -> (r: PostCollection)
        ensures
            r.wf(),
            r@ == Seq::<PostView>::empty(),
    {
        let r = PostCollection { posts: Vec::new() };
        assert(r@ =~= Seq::<PostView>::empty());
        r
    }

    /// The number of posts.
    pub fn len(&self) -> (r: usize)
        ensures
            r == self@.len(),
    {
        self.posts.len()
    }

    /// The post at `index`.
    pub fn get(&self, index: usize) -> (r: &Post)
        requires
            index < self@.len(),
        ensures
            r@ == self@[index as int],
    {
        &self.posts[index]
    }

    /// Adds a post in its place: after every post that does not sort after
    /// it.
    pub fn insert(&mut self, post: Post)
        requires
            old(self).wf(),
        ensures
            final(self).wf(),
            final(self)@ == insert_sorted(old(self)@, post@),
    {
        let ghost before = self@;
        let mut j: usize = self.posts.len();
        assert(before.subrange(0, j as int) =~= before);
        while j > 0 && is_post_before(&post, &self.posts[j - 1])
            invariant
                j <= self.posts@.len(),
                self@ == before,
                insert_pos(before.subrange(0, j as int), post@) == insert_pos(before, post@),
            decreases j,
        {
            assert(before.subrange(0, j as int).drop_last() =~= before.subrange(0, j - 1));
            j = j - 1;
        }
        proof {
            lemma_insert_sorted(before, post@);
        }
        let ghost p = post@;
        self.posts.insert(j, post);
        assert(self@ =~= before.insert(j as int, p));
    }

    /// The metadata of the posts before and after the one at `index`;
    /// absent where that position is outside the collection.
    pub fn neighbors(&self, index: usize) -> (r: (Option<&Metadata>, Option<&Metadata>))
        ensures
            match prev_index(self@.len() as int, index as int) {
                None => r.0 is None,
                Some(k) => r.0 matches Some(m) && m.title@ == self@[k].1 && m.date
                    == self@[k].2,
            },
            match next_index(self@.len() as int, index as int) {
                None => r.1 is None,
                Some(k) => r.1 matches Some(m) && m.title@ == self@[k].1 && m.date
                    == self@[k].2,
            },
    {
        let n = self.posts.len();
        let prev = if index >= 1 && index - 1 < n {
            Some(&self.posts[index - 1].document.metadata)
        } else {
            None
        };
        let next = if index < n && n - index > 1 {
            Some(&self.posts[index + 1].document.metadata)
        } else {
            None
        };
        (prev, next)
    }
}

/// The collection that the sources `(name, text)` give: each one that
/// parses goes in, in its place; the others are left out.
pub open spec fn collected(sources: Seq<(Seq<char>, Seq<char>)>) -> Seq<PostView>
    decreases sources.len(),
{
    if sources.len() == 0 {
        Seq::empty()
    } else {
        let rest = collected(sources.drop_last());
        let (name, text) = sources.last();
        match document_view(text) {
            Ok((t, d, b)) => insert_sorted(rest, (name, t, d, b)),
            Err(_) => rest,
        }
    }
}

pub open spec fn sources_view(sources: Seq<(String, String)>) -> Seq<(Seq<char>, Seq<char>)> {
    sources.map_values(|s: (String, String)| (s.0@, s.1@))
}

proof fn lemma_collected_sorted(sources: Seq<(Seq<char>, Seq<char>)>)
    ensures
        sorted_by_date(collected(sources)),
    decreases sources.len(),
{
    if sources.len() > 0 {
        lemma_collected_sorted(sources.drop_last());
        let (name, text) = sources.last();
        match document_view(text) {
            Ok((t, d, b)) => lemma_insert_sorted(collected(sources.drop_last()), (name, t, d, b)),
            Err(_) => {},
        }
    }
}

/// Parses every source `(name, text)` and collects the posts that parse;
/// a source that does not parse is skipped and the others go on.
pub fn build_collection(sources: &Vec<(String, String)>) -> (r: PostCollection)
    ensures
        r.wf(),
        r@ == collected(sources_view(sources@)),
{
    let mut c = PostCollection::new();
    let mut k: usize = 0;
    while k < sources.len()
        invariant
            k <= sources@.len(),
            c.wf(),
            c@ == collected(sources_view(sources@.subrange(0, k as int))),
        decreases sources@.len() - k,
    {
        let ghost pre = sources@.subrange(0, k as int);
        let ghost next = sources@.subrange(0, k + 1);
        assert(sources_view(next).drop_last() =~= sources_view(pre));
        assert(sources_view(next).last() == (sources@[k as int].0@, sources@[k as int].1@));
        let parsed = parse_document(sources[k].1.as_str());
        match parsed {
            Ok(document) => {
                let post = Post { name: sources[k].0.clone(), document };
                c.insert(post);
            },
            Err(_) => {},
        }
        k = k + 1;
    }
    assert(sources@.subrange(0, k as int) =~= sources@);
    c
}

impl PostCollection {
    /// Renders every post, in order, into `(name, page)`; each page has a
    /// "previous" control unless it is the first and a "next" control
    /// unless it is the last.
    pub fn render_collection(&self) -> (r: Vec<(String, String)>)
        ensures
            r@.len() == self@.len(),
            forall|i: int|
                0 <= i < r@.len() ==> (#[trigger] r@[i]).0@ == self@[i].0 && r@[i].1@ == page_view(
                    self@[i].1,
                    self@[i].3,
                    i > 0,
                    i + 1 < self@.len(),
                ),
    {
        let mut out: Vec<(String, String)> = Vec::new();
        let n = self.posts.len();
        let mut i: usize = 0;
        while i < n
            invariant
                i <= n,
                n == self@.len(),
                out@.len() == i,
                forall|k: int|
                    0 <= k < i ==> (#[trigger] out@[k]).0@ == self@[k].0 && out@[k].1@
                        == page_view(self@[k].1, self@[k].3, k > 0, k + 1 < n),
            decreases n - i,
        {
            let (prev, next) = self.neighbors(i);
            let post = &self.posts[i];
            assert(post@ == self@[i as int]);
            let page = convert_markdown_to_html(
                &post.document.metadata,
                post.document.body.as_str(),
                prev,
                next,
            );
            out.push((post.name.clone(), page));
            i = i + 1;
        }
        out
    }
}

/// Renders one document on its own: such a page has no navigation controls.
pub fn render_document(content: &str) -> (r: Result<String, FrontMatterError>)
    ensures
        match document_view(content@) {
            Err(e) => r matches Err(re) && re == e,
            Ok((t, d, b)) => r matches Ok(page) && page@ == page_view(t, b, false, false),
        },
{
    let document = parse_document(content)?;
    Ok(convert_markdown_to_html(&document.metadata, document.body.as_str(), None, None))
}

/// Neighbours never wrap around: the first post has no previous one, the
/// last has no next one, and every post in between has the posts right
/// before and after it.
pub proof fn lemma_neighbor_positions(n: int, i: int)
    requires
        0 <= i < n,
    ensures
        i == 0 ==> prev_index(n, i) is None,
        i == n - 1 ==> next_index(n, i) is None,
        0 < i ==> prev_index(n, i) == Some(i - 1),
        i < n - 1 ==> next_index(n, i) == Some(i + 1),
{
}

/// A source that does not parse leaves the collection as it was.
pub proof fn lemma_unparsable_skipped(
    sources: Seq<(Seq<char>, Seq<char>)>,
    name: Seq<char>,
    text: Seq<char>,
)
    requires
        document_view(text) is Err,
    ensures
        collected(sources.push((name, text))) == collected(sources),
{
    assert(sources.push((name, text)).drop_last() =~= sources);
}

/// Adding a source that parses adds exactly one post.
pub proof fn lemma_parsed_added(
    sources: Seq<(Seq<char>, Seq<char>)>,
    name: Seq<char>,
    text: Seq<char>,
)
    requires
        document_view(text) is Ok,
    ensures
        collected(sources.push((name, text))).len() == collected(sources).len() + 1,
{
    assert(sources.push((name, text)).drop_last() =~= sources);
    lemma_collected_sorted(sources);
    let (t, d, b) = document_view(text)->Ok_0;
    lemma_insert_sorted(collected(sources), (name, t, d, b));
}

} // verus!
