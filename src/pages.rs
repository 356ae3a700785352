//! The content pages of a site, by identifier, with their tags: listing a
//! tag's pages newest first, a slice at a time, and finding the pages that
//! share the most tags with a given one. The parsed document a page holds
//! is opaque here.
use crate::order::{compare_text, key_le, sort_indices, sorted_by_key, key_view};
use vstd::prelude::*;

verus! {

/// The header of a content page.
pub struct Metadata {
    pub title: String,
    /// Publication time, in nanoseconds since the Unix epoch.
    pub date: i64,
    pub image: Option<String>,
    pub preview: Option<String>,
    pub tags: Option<Vec<String>>,
    pub is_draft: Option<bool>,
}

/// A content page: its identifier, its parsed document and its header.
pub struct Page<C> {
    pub pid: String,
    pub content: C,
    pub metadata: Metadata,
}

/// The text of each of `v`.
pub open spec fn texts(v: Seq<String>) -> Seq<Seq<char>> {
    v.map_values(|s: String| s@)
}

/// The tags of a header, as text.
pub open spec fn tags_of(m: Metadata) -> Seq<Seq<char>> {
    match m.tags {
        Some(v) => texts(v@),
        None => Seq::empty(),
    }
}

/// How many of `tags` (counted with repeats) are among `among`.
pub open spec fn shared_count(tags: Seq<Seq<char>>, among: Seq<Seq<char>>) -> nat
    decreases tags.len(),
{
    if tags.len() == 0 {
        0
    } else {
        shared_count(tags.drop_last(), among) + if among.contains(tags.last()) {
            1nat
        } else {
            0nat
        }
    }
}

/// Nothing is shared with a page that has no tags.
proof fn lemma_shared_with_none(tags: Seq<Seq<char>>)
    ensures
        shared_count(tags, Seq::empty()) == 0,
    decreases tags.len(),
{
    if tags.len() > 0 {
        lemma_shared_with_none(tags.drop_last());
    }
}

impl<C> Page<C> {
    pub fn new(pid: String, content: C, metadata: Metadata) -> (p: Self)
        ensures
            p.pid == pid,
            p.content == content,
            p.metadata == metadata,
    {
        Page { pid, content, metadata }
    }

    pub fn get_title(&self) -> (r: String)
        ensures
            r@ == self.metadata.title@,
    {
        self.metadata.title.clone()
    }

    /// Where the page stands among others: newest first, then by identifier.
    pub open spec fn order_key(&self) -> (i128, Seq<char>) {
        (self.metadata.date as i128, self.pid@)
    }

    /// Whether the page stands before `other`: it is newer, or as new with
    /// a smaller identifier.
    pub fn stands_before(&self, other: &Page<C>) -> (r: bool)
        ensures
            r == crate::order::key_before(self.order_key(), other.order_key()),
    {
        if self.metadata.date != other.metadata.date {
            self.metadata.date > other.metadata.date
        } else {
            compare_text(self.pid.as_str(), other.pid.as_str()) < 0
        }
    }
}

/// Two pages are equal in the page order when they are as new and have the
/// same identifier.
impl<C> PartialEq for Page<C> {
    fn eq(&self, other: &Page<C>) -> (r: bool) {
        self.metadata.date == other.metadata.date && compare_text(self.pid.as_str(), other.pid.as_str()) == 0
    }
}

impl<C> vstd::std_specs::cmp::PartialEqSpecImpl for Page<C> {
    open spec fn obeys_eq_spec() -> bool {
        true
    }

    open spec fn eq_spec(&self, other: &Page<C>) -> bool {
        self.order_key() == other.order_key()
    }
}

/// Pages are ordered newest first, then by identifier.
impl<C> PartialOrd for Page<C> {
    fn partial_cmp(&self, other: &Page<C>) -> (r: Option<core::cmp::Ordering>) {
        if self.stands_before(other) {
            Some(core::cmp::Ordering::Less)
        } else if self.eq(other) {
            Some(core::cmp::Ordering::Equal)
        } else {
            Some(core::cmp::Ordering::Greater)
        }
    }
}

impl<C> vstd::std_specs::cmp::PartialOrdSpecImpl for Page<C> {
    open spec fn obeys_partial_cmp_spec() -> bool {
        true
    }

    open spec fn partial_cmp_spec(&self, other: &Page<C>) -> Option<core::cmp::Ordering> {
        if crate::order::key_before(self.order_key(), other.order_key()) {
            Some(core::cmp::Ordering::Less)
        } else if self.order_key() == other.order_key() {
            Some(core::cmp::Ordering::Equal)
        } else {
            Some(core::cmp::Ordering::Greater)
        }
    }
}

fn contains_text(v: &Vec<String>, s: &str) -> (r: bool)
    ensures
        r == texts(v@).contains(s@),
{
    let mut i: usize = 0;
    while i < v.len()
        invariant
            0 <= i <= v@.len(),
            forall|k: int| 0 <= k < i ==> v@[k]@ != s@,
        decreases v@.len() - i,
    {
        if compare_text(v[i].as_str(), s) == 0 {
            assert(texts(v@)[i as int] == s@);
            return true;
        }
        i = i + 1;
    }
    proof {
        let views = texts(v@);
        if views.contains(s@) {
            let k = choose|k: int| 0 <= k < views.len() && #[trigger] views[k] == s@;
            assert(v@[k]@ == s@);
        }
    }
    false
}

fn has_tag(m: &Metadata, tag: &str) -> (r: bool)
    ensures
        r == tags_of(*m).contains(tag@),
{
    match &m.tags {
        Some(v) => contains_text(v, tag),
        None => false,
    }
}

/// One entry of a slice's page list.
pub struct SliceNumber {
    pub number: usize,
    pub is_current: bool,
    pub display: usize,
}

/// One slice of a tag's pages, newest first, with the numbers of all slices.
pub struct PagesSlice {
    /// The identifiers of the pages of this slice.
    pub pages: Vec<String>,
    pub current_slice: usize,
    pub total_slices: usize,
    pub numbers: Vec<SliceNumber>,
    pub slice_size: usize,
}

/// `n / d`, rounded up.
pub open spec fn ceil_div(n: nat, d: nat) -> nat
    recommends
        d > 0,
{
    ((n + d - 1) / d as int) as nat
}

/// `s[from..from + len]`, cut at the end of `s`.
pub open spec fn window<A>(s: Seq<A>, from: int, len: int) -> Seq<A> {
    let a = if from < s.len() { from } else { s.len() as int };
    let b = if a + len < s.len() { a + len } else { s.len() as int };
    s.subrange(a, b)
}

/// The content pages of a site, each identifier once.
pub struct Pages<C> {
    pages: Vec<Page<C>>,
}

impl<C> Pages<C> {
    /// The pages, in the order their identifiers were first added.
    pub closed spec fn entries(&self) -> Seq<Page<C>> {
        self.pages@
    }

    pub open spec fn pids(&self) -> Seq<Seq<char>> {
        self.entries().map_values(|p: Page<C>| p.pid@)
    }

    pub open spec fn wf(&self) -> bool {
        self.pids().no_duplicates()
    }

    pub open spec fn has_pid(&self, pid: Seq<char>) -> bool {
        self.pids().contains(pid)
    }

    /// Every tag of any page.
    pub open spec fn has_tag(&self, tag: Seq<char>) -> bool {
        exists|i: int| 0 <= i < self.entries().len() && tags_of(#[trigger] self.entries()[i].metadata).contains(tag)
    }

    /// `order` lists the positions of the pages tagged `tag`, each once,
    /// newest first and then by identifier.
    pub open spec fn is_tag_order(&self, tag: Seq<char>, order: Seq<int>) -> bool {
        &&& order.no_duplicates()
        &&& forall|k: int| 0 <= k < order.len() ==> 0 <= #[trigger] order[k] < self.entries().len()
        &&& forall|i: int| 0 <= i < self.entries().len() ==> (order.contains(i) <==> tags_of(self.entries()[i].metadata).contains(tag))
        &&& forall|a: int, b: int| 0 <= a < b < order.len() ==> key_le(
            self.entries()[#[trigger] order[a]].order_key(),
            self.entries()[#[trigger] order[b]].order_key(),
        )
    }

    pub fn new() -> (p: Self)
        ensures
            p.wf(),
            p.entries() == Seq::<Page<C>>::empty(),
    {
        let p = Pages { pages: Vec::new() };
        assert(p.pids() =~= Seq::<Seq<char>>::empty());
        p
    }

    fn find(&self, pid: &str) -> (r: Option<usize>)
        ensures
            r matches Some(i) ==> i < self.entries().len() && self.entries()[i as int].pid@ == pid@,
            r is None ==> !self.has_pid(pid@),
    {
        let mut i: usize = 0;
        while i < self.pages.len()
            invariant
                0 <= i <= self.pages@.len(),
                forall|k: int| 0 <= k < i ==> self.pages@[k].pid@ != pid@,
            decreases self.pages@.len() - i,
        {
            if compare_text(self.pages[i].pid.as_str(), pid) == 0 {
                return Some(i);
            }
            i = i + 1;
        }
        proof {
            if self.has_pid(pid@) {
                let ps = self.pids();
                let k = choose|k: int| 0 <= k < ps.len() && #[trigger] ps[k] == pid@;
                assert(self.pages@[k].pid@ == pid@);
            }
        }
        None
    }

    /// Adds `page`; a page already there under its identifier is replaced
    /// in place.
    pub fn push(&mut self, page: Page<C>)
        requires
            old(self).wf(),
        ensures
            final(self).wf(),
            !old(self).has_pid(page.pid@) ==> final(self).entries() == old(self).entries().push(page),
            old(self).has_pid(page.pid@) ==> exists|i: int|
                0 <= i < old(self).entries().len() && old(self).entries()[i].pid@ == page.pid@
                    && final(self).entries() == old(self).entries().update(i, page),
    {
        match self.find(page.pid.as_str()) {
            Some(i) => {
                let ghost pid = page.pid@;
                assert(old(self).pids()[i as int] == pid);
                assert(old(self).has_pid(pid));
                self.pages.set(i, page);
                proof {
                    assert(self.pids() =~= old(self).pids().update(i as int, pid));
                    assert forall|a: int, b: int|
                        0 <= a < self.pids().len() && 0 <= b < self.pids().len() && a != b implies self.pids()[a]
                            != self.pids()[b] by {
                        assert(old(self).pids()[a] != old(self).pids()[b]);
                    }
                }
            },
            None => {
                let ghost pid = page.pid@;
                self.pages.push(page);
                proof {
                    assert(self.pids() =~= old(self).pids().push(pid));
                    assert forall|a: int, b: int|
                        0 <= a < self.pids().len() && 0 <= b < self.pids().len() && a != b implies self.pids()[a]
                            != self.pids()[b] by {
                        if a < old(self).pids().len() && b < old(self).pids().len() {
                            assert(old(self).pids()[a] != old(self).pids()[b]);
                        } else if a < old(self).pids().len() {
                            assert(old(self).pids().contains(self.pids()[a]));
                        } else {
                            assert(old(self).pids().contains(self.pids()[b]));
                        }
                    }
                }
            },
        }
    }

    /// The identifiers of all pages.
    pub fn keys(&self) -> (r: Vec<String>)
        ensures
            texts(r@) == self.pids(),
    {
        let mut r: Vec<String> = Vec::new();
        let mut i: usize = 0;
        while i < self.pages.len()
            invariant
                0 <= i <= self.pages@.len(),
                texts(r@) == self.pids().take(i as int),
            decreases self.pages@.len() - i,
        {
            let ghost old_r = r@;
            r.push(self.pages[i].pid.clone());
            assert(texts(r@) =~= texts(old_r).push(self.pids()[i as int]));
            assert(texts(r@) =~= self.pids().take(i + 1));
            i = i + 1;
        }
        assert(self.pids().take(i as int) =~= self.pids());
        r
    }

    /// The page with identifier `pid`.
    pub fn get(&self, pid: &str) -> (r: Option<&Page<C>>)
        ensures
            r is None <==> !self.has_pid(pid@),
            r matches Some(p) ==> p.pid@ == pid@ && exists|i: int|
                0 <= i < self.entries().len() && self.entries()[i] == *p,
    {
        match self.find(pid) {
            Some(i) => {
                assert(self.pids()[i as int] == pid@);
                Some(&self.pages[i])
            },
            None => None,
        }
    }

    /// Every tag of any page, each once.
    pub fn get_tags(&self) -> (r: Vec<String>)
        ensures
            texts(r@).no_duplicates(),
            forall|t: Seq<char>| texts(r@).contains(t) <==> self.has_tag(t),
    {
        let mut r: Vec<String> = Vec::new();
        let mut i: usize = 0;
        while i < self.pages.len()
            invariant
                0 <= i <= self.pages@.len(),
                texts(r@).no_duplicates(),
                forall|t: Seq<char>| texts(r@).contains(t) <==> exists|k: int|
                    0 <= k < i && tags_of(#[trigger] self.pages@[k].metadata).contains(t),
            decreases self.pages@.len() - i,
        {
            if let Some(tags) = &self.pages[i].metadata.tags {
                let mut j: usize = 0;
                while j < tags.len()
                    invariant
                        0 <= i < self.pages@.len(),
                        self.pages@[i as int].metadata.tags == Some(*tags),
                        0 <= j <= tags@.len(),
                        texts(r@).no_duplicates(),
                        forall|t: Seq<char>| #[trigger] texts(r@).contains(t) <==> ((exists|k: int|
                            0 <= k < i && tags_of(#[trigger] self.pages@[k].metadata).contains(t))
                            || texts(tags@).take(j as int).contains(t)),
                    decreases tags@.len() - j,
                {
                    let ghost before = texts(r@);
                    let ghost tv = texts(tags@);
                    assert(tv.take(j + 1) =~= tv.take(j as int).push(tags@[j as int]@));
                    let ghost tj = tags@[j as int]@;
                    assert(tv[j as int] == tj);
                    assert forall|t: Seq<char>| #[trigger] tv.take(j + 1).contains(t) <==> (tv.take(j as int).contains(t) || t == tj) by {
                        if tv.take(j + 1).contains(t) {
                            let q = choose|q: int| 0 <= q < j + 1 && #[trigger] tv.take(j + 1)[q] == t;
                            if q < j {
                                assert(tv.take(j as int)[q] == t);
                            }
                        }
                        if tv.take(j as int).contains(t) {
                            let q = choose|q: int| 0 <= q < j && #[trigger] tv.take(j as int)[q] == t;
                            assert(tv.take(j + 1)[q] == t);
                        }
                        if t == tj {
                            assert(tv.take(j + 1)[j as int] == t);
                        }
                    }
                    if !contains_text(&r, tags[j].as_str()) {
                        r.push(tags[j].clone());
                        assert(texts(r@) =~= before.push(tj));
                        assert forall|t: Seq<char>| #[trigger] texts(r@).contains(t) <==> (before.contains(t) || t == tj) by {
                            if texts(r@).contains(t) {
                                let q = choose|q: int| 0 <= q < texts(r@).len() && #[trigger] texts(r@)[q] == t;
                                if q < before.len() {
                                    assert(before[q] == t);
                                }
                            }
                            if before.contains(t) {
                                let q = choose|q: int| 0 <= q < before.len() && #[trigger] before[q] == t;
                                assert(texts(r@)[q] == t);
                            }
                            if t == tj {
                                assert(texts(r@)[before.len() as int] == t);
                            }
                        }
                        assert(texts(r@).no_duplicates()) by {
                            assert forall|a: int, b: int| 0 <= a < texts(r@).len() && 0 <= b < texts(r@).len() && a != b implies texts(r@)[a] != texts(r@)[b] by {
                                if a < before.len() && b < before.len() {
                                    assert(before[a] != before[b]);
                                } else if a < before.len() {
                                    assert(before.contains(before[a]));
                                } else {
                                    assert(before.contains(before[b]));
                                }
                            }
                        }
                    }
                    j = j + 1;
                }
                assert(texts(tags@).take(j as int) =~= tags_of(self.pages@[i as int].metadata));
            }
            proof {
                assert forall|t: Seq<char>| texts(r@).contains(t) <==> exists|k: int|
                    0 <= k < i + 1 && tags_of(#[trigger] self.pages@[k].metadata).contains(t) by {
                    if tags_of(self.pages@[i as int].metadata).contains(t) {
                        assert(0 <= i < i + 1);
                    }
                }
            }
            i = i + 1;
        }
        r
    }

    /// How many tags of the page at `i` the page at `p` has too.
    pub open spec fn shared_tags(&self, i: int, p: int) -> nat {
        shared_count(tags_of(self.entries()[i].metadata), tags_of(self.entries()[p].metadata))
    }

    /// `order` lists the positions of the pages other than the one at `p`
    /// that share a tag with it, each once, most shared tags first.
    pub open spec fn is_similar_order(&self, p: int, order: Seq<int>) -> bool {
        &&& order.no_duplicates()
        &&& forall|k: int| 0 <= k < order.len() ==> 0 <= #[trigger] order[k] < self.entries().len()
        &&& forall|i: int| 0 <= i < self.entries().len() ==> (order.contains(i) <==> (i != p && self.shared_tags(i, p) > 0))
        &&& forall|a: int, b: int| 0 <= a < b < order.len() ==> self.shared_tags(#[trigger] order[a], p) >= self.shared_tags(#[trigger] order[b], p)
    }

    /// The identifiers of at most `max` other pages that share tags with the
    /// page `pid`, those that share the most first; none where there is no
    /// such page.
    pub fn get_similar(&self, pid: &str, max: usize) -> (r: Vec<String>)
        requires
            self.wf(),
        ensures
            !self.has_pid(pid@) ==> r@.len() == 0,
            self.has_pid(pid@) ==> exists|p: int, order: Seq<int>|
                0 <= p < self.entries().len() && self.entries()[p].pid@ == pid@
                    && #[trigger] self.is_similar_order(p, order) && texts(r@) == order.map_values(
                    |i: int| self.entries()[i].pid@,
                ).take(if max < order.len() { max as int } else { order.len() as int }),
    {
        let p = match self.find(pid) {
            Some(p) => p,
            None => {
                return Vec::new();
            },
        };
        assert(self.pids()[p as int] == pid@);
        let ghost page_tags = tags_of(self.pages@[p as int].metadata);
        let mut candidates: Vec<usize> = Vec::new();
        let mut keys: Vec<(i128, String)> = Vec::new();
        let mut i: usize = 0;
        while i < self.pages.len()
            invariant
                0 <= i <= self.pages@.len(),
                p < self.pages@.len(),
                page_tags == tags_of(self.pages@[p as int].metadata),
                candidates@.len() == keys@.len(),
                candidates@.no_duplicates(),
                forall|k: int| 0 <= k < candidates@.len() ==> (#[trigger] candidates@[k]) < i,
                forall|x: usize| x < i ==> (candidates@.contains(x) <==> (x != p && self.shared_tags(x as int, p as int) > 0)),
                forall|k: int| 0 <= k < candidates@.len() ==> (#[trigger] keys@[k]).0 == self.shared_tags(candidates@[k] as int, p as int) && keys@[k].1@ == Seq::<char>::empty(),
            decreases self.pages@.len() - i,
        {
            let mut score: usize = 0;
            if i != p {
                if let Some(own) = &self.pages[p].metadata.tags {
                    if let Some(other) = &self.pages[i].metadata.tags {
                        let mut j: usize = 0;
                        while j < other.len()
                            invariant
                                0 <= j <= other@.len(),
                                i < self.pages@.len(),
                                p < self.pages@.len(),
                                score <= j,
                                self.pages@[i as int].metadata.tags == Some(*other),
                                self.pages@[p as int].metadata.tags == Some(*own),
                                score == shared_count(texts(other@).take(j as int), texts(own@)),
                            decreases other@.len() - j,
                        {
                            assert(texts(other@).take(j + 1).drop_last() =~= texts(other@).take(j as int));
                            if contains_text(own, other[j].as_str()) {
                                score = score + 1;
                            }
                            j = j + 1;
                        }
                        assert(texts(other@).take(j as int) =~= texts(other@));
                    } else {
                        assert(tags_of(self.pages@[i as int].metadata) =~= Seq::<Seq<char>>::empty());
                    }
                } else {
                    proof {
                        lemma_shared_with_none(tags_of(self.pages@[i as int].metadata));
                    }
                    assert(tags_of(self.pages@[p as int].metadata) =~= Seq::<Seq<char>>::empty());
                }
            }
            if score > 0 {
                let ghost old_c = candidates@;
                candidates.push(i);
                keys.push((score as i128, String::new()));
                proof {
                    assert forall|x: usize| x < i + 1 implies (candidates@.contains(x) <==> (x != p && self.shared_tags(x as int, p as int) > 0)) by {
                        if x == i {
                            assert(candidates@[old_c.len() as int] == x);
                        } else if old_c.contains(x) {
                            let q = choose|q: int| 0 <= q < old_c.len() && old_c[q] == x;
                            assert(candidates@[q] == x);
                        } else if candidates@.contains(x) {
                            let q = choose|q: int| 0 <= q < candidates@.len() && candidates@[q] == x;
                            assert(old_c[q] == x);
                        }
                    }
                }
            } else {
                proof {
                    assert forall|x: usize| x < i + 1 implies (candidates@.contains(x) <==> (x != p && self.shared_tags(x as int, p as int) > 0)) by {
                        if x == i && candidates@.contains(x) {
                            let q = choose|q: int| 0 <= q < candidates@.len() && candidates@[q] == x;
                        }
                    }
                }
            }
            i = i + 1;
        }
        let order = sort_indices(&keys);
        let n = order.len();
        let count: usize = if max < n {
            max
        } else {
            n
        };
        let ghost full: Seq<int> = order@.map_values(|q: usize| candidates@[q as int] as int);
        let ghost pids: Seq<Seq<char>> = full.map_values(|i: int| self.entries()[i].pid@);
        let mut r: Vec<String> = Vec::new();
        let mut k: usize = 0;
        while k < count
            invariant
                0 <= k <= count <= n,
                n == order@.len(),
                order@.len() == keys@.len(),
                forall|q: int| 0 <= q < order@.len() ==> order@[q] < keys@.len(),
                candidates@.len() == keys@.len(),
                forall|q: int| 0 <= q < candidates@.len() ==> (#[trigger] candidates@[q]) < self.pages@.len(),
                full == order@.map_values(|q: usize| candidates@[q as int] as int),
                pids == full.map_values(|i: int| self.entries()[i].pid@),
                texts(r@) == pids.take(k as int),
            decreases count - k,
        {
            let t = candidates[order[k]];
            assert(pids[k as int] == self.pages@[t as int].pid@);
            let ghost old_r = r@;
            r.push(self.pages[t].pid.clone());
            assert(texts(r@) =~= texts(old_r).push(pids[k as int]));
            assert(texts(r@) =~= pids.take(k + 1));
            k = k + 1;
        }
        proof {
            assert(full.no_duplicates()) by {
                assert forall|a: int, b: int| 0 <= a < full.len() && 0 <= b < full.len() && a != b implies full[a] != full[b] by {
                    assert(order@[a] != order@[b]);
                    assert(candidates@[order@[a] as int] != candidates@[order@[b] as int]);
                }
            }
            assert forall|x: int| 0 <= x < self.entries().len() implies (full.contains(x) <==> (x != p && self.shared_tags(x, p as int) > 0)) by {
                if full.contains(x) {
                    let q = choose|q: int| 0 <= q < full.len() && full[q] == x;
                    assert(candidates@.contains(candidates@[order@[q] as int]));
                }
                if x != p && self.shared_tags(x, p as int) > 0 {
                    assert(candidates@.contains(x as usize));
                    let q = choose|q: int| 0 <= q < candidates@.len() && candidates@[q] == x as usize;
                    assert(order@.contains(q as usize));
                    let w = choose|w: int| 0 <= w < order@.len() && order@[w] == q as usize;
                    assert(full[w] == x);
                }
            }
            assert forall|a: int, b: int| 0 <= a < b < full.len() implies self.shared_tags(#[trigger] full[a], p as int)
                >= self.shared_tags(#[trigger] full[b], p as int) by {
                assert(key_le(key_view(keys@[order@[a] as int]), key_view(keys@[order@[b] as int])));
            }
            assert(self.is_similar_order(p as int, full));
            assert(pids =~= full.map_values(|i: int| self.entries()[i].pid@));
            assert(self.entries()[p as int].pid@ == pid@);
        }
        r
    }

    /// One slice of the pages tagged `tag`, newest first: `limit` pages
    /// from position `offset` on, the slice's number, how many slices the
    /// tag has, and the list of all slice numbers with the current one
    /// marked.
    pub fn get_posts_by_tag(&self, tag: &str, limit: usize, offset: usize) -> (r: PagesSlice)
        requires
            self.wf(),
            self.has_tag(tag@),
            limit > 0,
        ensures
            r.current_slice == offset / limit,
            r.slice_size == limit,
            exists|order: Seq<int>| #[trigger] self.is_tag_order(tag@, order) && {
                &&& r.total_slices == ceil_div(order.len(), limit as nat)
                &&& texts(r.pages@) == window(
                    order.map_values(|i: int| self.entries()[i].pid@),
                    offset as int,
                    limit as int,
                )
            },
            r.numbers@.len() == r.total_slices,
            forall|i: int| 0 <= i < r.numbers@.len() ==> {
                &&& (#[trigger] r.numbers@[i]).number == i
                &&& r.numbers@[i].display == i + 1
                &&& r.numbers@[i].is_current == (i == offset / limit)
            },
    {
        // the tagged pages, in order of addition
        let mut tagged: Vec<usize> = Vec::new();
        let mut keys: Vec<(i128, String)> = Vec::new();
        let mut i: usize = 0;
        while i < self.pages.len()
            invariant
                0 <= i <= self.pages@.len(),
                tagged@.len() == keys@.len(),
                tagged@.no_duplicates(),
                forall|k: int| 0 <= k < tagged@.len() ==> (#[trigger] tagged@[k]) < i,
                forall|x: usize| x < i ==> (tagged@.contains(x) <==> tags_of(self.pages@[x as int].metadata).contains(tag@)),
                forall|k: int| 0 <= k < tagged@.len() ==> key_view(#[trigger] keys@[k]) == self.pages@[tagged@[k] as int].order_key(),
            decreases self.pages@.len() - i,
        {
            if has_tag(&self.pages[i].metadata, tag) {
                let ghost old_t = tagged@;
                tagged.push(i);
                keys.push((self.pages[i].metadata.date as i128, self.pages[i].pid.clone()));
                proof {
                    assert forall|x: usize| x < i + 1 implies (tagged@.contains(x) <==> tags_of(self.pages@[x as int].metadata).contains(tag@)) by {
                        if x == i {
                            assert(tagged@[old_t.len() as int] == x);
                        } else if old_t.contains(x) {
                            let q = choose|q: int| 0 <= q < old_t.len() && old_t[q] == x;
                            assert(tagged@[q] == x);
                        } else if tagged@.contains(x) {
                            let q = choose|q: int| 0 <= q < tagged@.len() && tagged@[q] == x;
                            assert(q < old_t.len());
                            assert(old_t[q] == x);
                        }
                    }
                }
            } else {
                proof {
                    assert forall|x: usize| x < i + 1 implies (tagged@.contains(x) <==> tags_of(self.pages@[x as int].metadata).contains(tag@)) by {
                        if x == i && tagged@.contains(x) {
                            let q = choose|q: int| 0 <= q < tagged@.len() && tagged@[q] == x;
                        }
                    }
                }
            }
            i = i + 1;
        }
        let order = sort_indices(&keys);
        let n = order.len();
        let current_slice = offset / limit;
        let q = n / limit;
        assert(n % limit != 0 ==> q < n) by (nonlinear_arith)
            requires
                limit > 0,
                q == n / limit,
        {
        }
        let total_slices: usize = if n % limit == 0 {
            q
        } else {
            q + 1
        };
        assert(total_slices == ceil_div(n as nat, limit as nat)) by (nonlinear_arith)
            requires
                limit > 0,
                n % limit == 0 ==> total_slices == n / limit,
                n % limit != 0 ==> total_slices == n / limit + 1,
        {
        }
        let mut numbers: Vec<SliceNumber> = Vec::new();
        let mut s: usize = 0;
        while s < total_slices
            invariant
                0 <= s <= total_slices,
                limit > 0,
                current_slice == offset / limit,
                numbers@.len() == s,
                forall|q: int| 0 <= q < s ==> {
                    &&& (#[trigger] numbers@[q]).number == q
                    &&& numbers@[q].display == q + 1
                    &&& numbers@[q].is_current == (q == offset / limit)
                },
            decreases total_slices - s,
        {
            numbers.push(SliceNumber { number: s, is_current: s == current_slice, display: s + 1 });
            s = s + 1;
        }
        // the pages of the slice
        let ghost full: Seq<int> = order@.map_values(|p: usize| tagged@[p as int] as int);
        let ghost pids: Seq<Seq<char>> = full.map_values(|i: int| self.entries()[i].pid@);
        let start: usize = if offset < n {
            offset
        } else {
            n
        };
        let end: usize = if limit <= n - start {
            start + limit
        } else {
            n
        };
        let mut pages: Vec<String> = Vec::new();
        let mut k: usize = start;
        while k < end
            invariant
                start <= k <= end <= n,
                n == order@.len(),
                order@.len() == keys@.len(),
                forall|q: int| 0 <= q < order@.len() ==> order@[q] < keys@.len(),
                tagged@.len() == keys@.len(),
                forall|q: int| 0 <= q < tagged@.len() ==> (#[trigger] tagged@[q]) < self.pages@.len(),
                full == order@.map_values(|p: usize| tagged@[p as int] as int),
                pids == full.map_values(|i: int| self.entries()[i].pid@),
                texts(pages@) == pids.subrange(start as int, k as int),
            decreases end - k,
        {
            let t = tagged[order[k]];
            assert(pids[k as int] == self.pages@[t as int].pid@);
            let ghost old_pages = pages@;
            pages.push(self.pages[t].pid.clone());
            assert(texts(pages@) =~= texts(old_pages).push(pids[k as int]));
            assert(texts(pages@) =~= pids.subrange(start as int, k + 1));
            k = k + 1;
        }
        proof {
            assert(pids =~= full.map_values(|i: int| self.entries()[i].pid@));
            assert(window(pids, offset as int, limit as int) =~= pids.subrange(start as int, end as int));
            // the sorted positions make a tag order
            assert(full.no_duplicates()) by {
                assert forall|a: int, b: int| 0 <= a < full.len() && 0 <= b < full.len() && a != b implies full[a] != full[b] by {
                    assert(order@[a] != order@[b]);
                    assert(tagged@[order@[a] as int] != tagged@[order@[b] as int]);
                }
            }
            assert forall|x: int| 0 <= x < self.entries().len() implies (full.contains(x) <==> tags_of(self.entries()[x].metadata).contains(tag@)) by {
                if full.contains(x) {
                    let q = choose|q: int| 0 <= q < full.len() && full[q] == x;
                    assert(tagged@.contains(tagged@[order@[q] as int]));
                }
                if tags_of(self.entries()[x].metadata).contains(tag@) {
                    assert(tagged@.contains(x as usize));
                    let q = choose|q: int| 0 <= q < tagged@.len() && tagged@[q] == x as usize;
                    assert(order@.contains(q as usize));
                    let w = choose|w: int| 0 <= w < order@.len() && order@[w] == q as usize;
                    assert(full[w] == x);
                }
            }
            assert forall|a: int, b: int| 0 <= a < b < full.len() implies key_le(
                self.entries()[#[trigger] full[a]].order_key(),
                self.entries()[#[trigger] full[b]].order_key(),
            ) by {
                assert(key_le(key_view(keys@[order@[a] as int]), key_view(keys@[order@[b] as int])));
            }
            assert(self.is_tag_order(tag@, full));
        }
        PagesSlice { pages, current_slice, total_slices, numbers, slice_size: limit }
    }
}

} // verus!
