//! The assembled corpus: posts sorted ascending by index, duplicate
//! indices rejected, with O(1) positional prev/next navigation.

use vstd::prelude::*;
use vstd::multiset::Multiset;

use crate::date::Date;
use crate::date::date_of_text;
use crate::date::date_text;
use crate::date::format_date;
use crate::date::lemma_date_text_injective;
use crate::date::lemma_key_injective;
use crate::date::lemma_text_round_trip;
use crate::date::parse_date;
use crate::date::valid_date_text;
use crate::post::LoadError;
use crate::post::Post;
use crate::post::RawPost;
use crate::post::parse_accepts;
use crate::post::parse_error_spec;
use crate::post::parse_post;
use crate::post::post_from_raw;

verus! {

/// Keys never decrease from left to right.
pub open spec fn sorted_le(s: Seq<Post>) -> bool {
    forall|i: int, j: int|
        #![trigger s[i], s[j]]
        0 <= i < j < s.len() ==> s[i].index.key() <= s[j].index.key()
}

/// No two positions share an index key.
pub open spec fn distinct_keys(s: Seq<Post>) -> bool {
    forall|i: int, j: int|
        #![trigger s[i], s[j]]
        0 <= i < j < s.len() ==> s[i].index.key() != s[j].index.key()
}

/// A permutation carries a repeated index key with it: two positions
/// of one key on one side give two positions of one key on the other.
proof fn lemma_dup_key_transfer(s1: Seq<Post>, s2: Seq<Post>, i: int, j: int) -> (r: (int, int))
    requires
        s1.to_multiset() == s2.to_multiset(),
        0 <= i < j < s1.len(),
        s1[i].index.key() == s1[j].index.key(),
    ensures
        0 <= r.0 < r.1 < s2.len(),
        s2[r.0].index.key() == s2[r.1].index.key(),
        s2[r.0].index.key() == s1[i].index.key(),
{
    broadcast use vstd::seq_lib::group_to_multiset_ensures;
    broadcast use vstd::multiset::group_multiset_axioms;

    let x = s1[i];
    let y = s1[j];
    assert(s1.len() == s1.to_multiset().len());
    assert(s2.len() == s2.to_multiset().len());
    if x == y {
        let s1r = s1.remove(j);
        s1.remove_ensures(j);
        assert(s1r[i] == x);
        assert(s1r.contains(x));
        assert(s1r.to_multiset() == s1.to_multiset().remove(x));
        assert(s1r.to_multiset().count(x) > 0);
        assert(s2.to_multiset().count(x) >= 2);
        assert(s2.contains(x));
        let a = s2.lemma_contains_to_index(x);
        let s2r = s2.remove(a);
        s2.remove_ensures(a);
        assert(s2r.to_multiset() == s2.to_multiset().remove(x));
        assert(s2r.to_multiset().count(x) > 0);
        assert(s2r.contains(x));
        let c = s2r.lemma_contains_to_index(x);
        if c < a {
            assert(s2[c] == x);
            (c, a)
        } else {
            assert(s2[c + 1] == x);
            (a, c + 1)
        }
    } else {
        assert(s1.contains(x));
        assert(s1.contains(y));
        assert(s1.to_multiset().count(x) > 0);
        assert(s1.to_multiset().count(y) > 0);
        assert(s2.contains(x));
        assert(s2.contains(y));
        let a = s2.lemma_contains_to_index(x);
        let b = s2.lemma_contains_to_index(y);
        if a < b {
            (a, b)
        } else {
            (b, a)
        }
    }
}

/// Selection sort by index key: a sorted permutation of the input.
fn sort_posts(input: Vec<Post>) -> (r: Vec<Post>)
    ensures
        sorted_le(r@),
        r@.to_multiset() == input@.to_multiset(),
        r@.len() == input@.len(),
        (forall|k: int| 0 <= k < input@.len() ==> (#[trigger] input@[k]).wf()) ==> (forall|k: int|
            0 <= k < r@.len() ==> (#[trigger] r@[k]).wf()),
{
    let ghost whole = input@;
    let mut rest = input;
    let mut out: Vec<Post> = Vec::new();
    proof {
        broadcast use vstd::seq_lib::group_to_multiset_ensures;
        broadcast use vstd::multiset::group_multiset_axioms;

        assert(out@.to_multiset().add(rest@.to_multiset()) =~= whole.to_multiset());
    }
    while rest.len() > 0
        invariant
            out@.to_multiset().add(rest@.to_multiset()) == whole.to_multiset(),
            out@.len() + rest@.len() == whole.len(),
            sorted_le(out@),
            forall|i: int, j: int|
                #![trigger out@[i], rest@[j]]
                0 <= i < out@.len() && 0 <= j < rest@.len() ==> out@[i].index.key()
                    <= rest@[j].index.key(),
            (forall|k: int| 0 <= k < whole.len() ==> (#[trigger] whole[k]).wf()) ==> ((forall|
                k: int,
            | 0 <= k < out@.len() ==> (#[trigger] out@[k]).wf()) && (forall|k: int|
                0 <= k < rest@.len() ==> (#[trigger] rest@[k]).wf())),
        decreases rest@.len(),
    {
        let mut min_i: usize = 0;
        let mut k: usize = 1;
        while k < rest.len()
            invariant
                rest@.len() > 0,
                min_i < k,
                k <= rest@.len(),
                forall|j: int|
                    0 <= j < k ==> rest@[min_i as int].index.key() <= (#[trigger] rest@[j]).index.key(),
            decreases rest@.len() - k,
        {
            if rest[k].index.key_value() < rest[min_i].index.key_value() {
                min_i = k;
            }
            k += 1;
        }
        let ghost old_rest = rest@;
        let ghost old_out = out@;
        let m = rest.remove(min_i);
        out.push(m);
        proof {
            broadcast use vstd::seq_lib::group_to_multiset_ensures;
            broadcast use vstd::multiset::group_multiset_axioms;

            old_rest.remove_ensures(min_i as int);
            assert(rest@.to_multiset() == old_rest.to_multiset().remove(m));
            assert(out@.to_multiset() == old_out.to_multiset().insert(m));
            assert(old_rest.to_multiset().count(m) > 0);
            assert(out@.to_multiset().add(rest@.to_multiset()) =~= old_out.to_multiset().add(
                old_rest.to_multiset(),
            ));
        }
    }
    proof {
        broadcast use vstd::seq_lib::group_to_multiset_ensures;
        broadcast use vstd::multiset::group_multiset_axioms;

        assert(rest@.to_multiset() =~= Multiset::<Post>::empty());
        assert(out@.to_multiset() =~= out@.to_multiset().add(rest@.to_multiset()));
    }
    out
}

/// The full corpus, ascending by index, no duplicate, never empty.
#[derive(Debug)]
pub struct PostList {
    items: Vec<Post>,
}

impl View for PostList {
    type V = Seq<Post>;

    closed spec fn view(&self) -> Seq<Post> {
        self.items@
    }
}

impl PostList {
    /// The corpus invariant: non-empty, strictly ascending index keys
    /// (hence pairwise-distinct indices), every post well formed.
    pub open spec fn wf(self) -> bool {
        &&& self@.len() > 0
        &&& (forall|i: int, j: int|
            #![trigger self@[i], self@[j]]
            0 <= i < j < self@.len() ==> self@[i].index.key() < self@[j].index.key())
        &&& (forall|i: int| 0 <= i < self@.len() ==> (#[trigger] self@[i]).wf())
    }

    /// Orders the given posts ascending by index and assembles the
    /// corpus. Fails with `EmptyCorpus` on no posts at all and with
    /// `DuplicateIndex` when two posts share an index (found after
    /// sorting, comparing adjacent entries); succeeds otherwise, on a
    /// sorted permutation of the input.
    pub fn new(posts: Vec<Post>) -> (r: Result<PostList, LoadError>)
        requires
            forall|k: int| 0 <= k < posts@.len() ==> (#[trigger] posts@[k]).wf(),
        ensures
            r is Ok <==> (posts@.len() > 0 && distinct_keys(posts@)),
            r matches Ok(l) ==> l.wf() && l@.len() == posts@.len() && l@.to_multiset()
                == posts@.to_multiset(),
            posts@.len() == 0 ==> r matches Err(LoadError::EmptyCorpus),
            (posts@.len() > 0 && !distinct_keys(posts@)) ==> (r matches Err(
                LoadError::DuplicateIndex(s),
            ) && valid_date_text(s@) && (exists|k: int|
                0 <= k < posts@.len() && s@ == date_text(#[trigger] posts@[k].index)) && (exists|
                a: int,
                b: int,
            |
                0 <= a < b < posts@.len() && (#[trigger] posts@[a]).index.key() == (
                #[trigger] posts@[b]).index.key() && posts@[a].index.key() == date_of_text(
                    s@,
                ).key())),
    {
        let ghost input = posts@;
        let sorted = sort_posts(posts);
        if sorted.len() == 0 {
            return Err(LoadError::EmptyCorpus);
        }
        let n = sorted.len();
        let mut i: usize = 1;
        while i < n
            invariant
                n == sorted@.len(),
                1 <= i <= n,
                input == posts@,
                n == input.len(),
                sorted_le(sorted@),
                sorted@.to_multiset() == input.to_multiset(),
                forall|k: int| 0 <= k < sorted@.len() ==> (#[trigger] sorted@[k]).wf(),
                forall|a: int, b: int|
                    #![trigger sorted@[a], sorted@[b]]
                    0 <= a < b < i ==> sorted@[a].index.key() < sorted@[b].index.key(),
            decreases n - i,
        {
            if sorted[i - 1].index.key_value() == sorted[i].index.key_value() {
                let dup: Date = sorted[i].index;
                proof {
                    broadcast use vstd::seq_lib::group_to_multiset_ensures;
                    broadcast use vstd::multiset::group_multiset_axioms;

                    let (a, b) = lemma_dup_key_transfer(sorted@, input, i - 1, i as int);
                    assert(!distinct_keys(input));
                    assert(sorted@.contains(sorted@[i as int]));
                    assert(input.to_multiset().count(sorted@[i as int]) > 0);
                    assert(input.contains(sorted@[i as int]));
                    let k = input.lemma_contains_to_index(sorted@[i as int]);
                    assert(input[k].wf());
                    assert(dup.valid());
                    crate::date::lemma_date_text_parses(dup);
                    assert(input[a].index.key() == dup.key() && input[b].index.key()
                        == dup.key());
                    assert(date_of_text(date_text(dup)) == dup);
                }
                return Err(LoadError::DuplicateIndex(format_date(&dup)));
            }
            i += 1;
        }
        proof {
            assert(distinct_keys(input)) by {
                if !distinct_keys(input) {
                    let (a, b): (int, int) = choose|a: int, b: int|
                        0 <= a < b < input.len() && (#[trigger] input[a]).index.key() == (
                        #[trigger] input[b]).index.key();
                    let (c, d) = lemma_dup_key_transfer(input, sorted@, a, b);
                    assert(false);
                }
            }
        }
        Ok(PostList { items: sorted })
    }

    pub fn len(&self) -> (r: usize)
        ensures
            r == self@.len(),
    {
        self.items.len()
    }

    /// The post at a position, counted from the oldest.
    pub fn get(&self, i: usize) -> (r: &Post)
        requires
            i < self@.len(),
        ensures
            *r == self@[i as int],
    {
        &self.items[i]
    }

    /// The oldest post: the smallest index.
    pub fn first(&self) -> (r: &Post)
        requires
            self@.len() > 0,
        ensures
            *r == self@[0],
    {
        &self.items[0]
    }

    /// The most recent post: the largest index.
    pub fn last(&self) -> (r: &Post)
        requires
            self@.len() > 0,
        ensures
            *r == self@[self@.len() - 1],
    {
        &self.items[self.items.len() - 1]
    }

    /// The whole corpus in ascending index order, for enumeration.
    pub fn posts(&self) -> (r: &Vec<Post>)
        ensures
            r@ == self@,
    {
        &self.items
    }

    /// A navigable handle on the post at a position.
    pub fn entry(&self, i: usize) -> (r: PostRef<'_>)
        requires
            i < self@.len(),
        ensures
            r.list@ == self@,
            r.pos == i,
    {
        PostRef { list: self, pos: i }
    }

    /// Position of the post carrying an index, if any: permalink
    /// resolution from a date to a place in the corpus.
    pub fn position_of(&self, index: &Date) -> (r: Option<usize>)
        requires
            self.wf(),
            index.valid(),
        ensures
            r matches Some(i) ==> i < self@.len() && self@[i as int].index == *index,
            r is None ==> forall|j: int| 0 <= j < self@.len() ==> (#[trigger] self@[j]).index
                != *index,
    {
        let n = self.items.len();
        let target = index.key_value();
        let mut i: usize = 0;
        while i < n
            invariant
                self.wf(),
                index.valid(),
                n == self@.len(),
                i <= n,
                target as int == index.key(),
                forall|j: int| 0 <= j < i ==> (#[trigger] self@[j]).index != *index,
            decreases n - i,
        {
            if self.items[i].index.key_value() == target {
                proof {
                    lemma_key_injective(self@[i as int].index, *index);
                }
                return Some(i);
            }
            i += 1;
        }
        None
    }

    /// Position of the post whose index is spelled by the given text,
    /// if any: permalink resolution from a URL path segment.
    pub fn position_of_text(&self, s: &str) -> (r: Option<usize>)
        requires
            self.wf(),
        ensures
            r matches Some(i) ==> i < self@.len() && date_text(self@[i as int].index) == s@,
            r is None ==> forall|j: int| 0 <= j < self@.len() ==> date_text(
                (#[trigger] self@[j]).index,
            ) != s@,
    {
        let parsed = match parse_date(s) {
            Some(d) => d,
            None => {
                proof {
                    assert forall|j: int| 0 <= j < self@.len() implies date_text(
                        (#[trigger] self@[j]).index,
                    ) != s@ by {
                        crate::date::lemma_date_text_parses(self@[j].index);
                    }
                }
                return None;
            },
        };
        let r = self.position_of(&parsed);
        proof {
            if r is None {
                assert forall|j: int| 0 <= j < self@.len() implies date_text(
                    (#[trigger] self@[j]).index,
                ) != s@ by {
                    if date_text(self@[j].index) == s@ {
                        lemma_text_round_trip(s@);
                        crate::date::lemma_date_text_parses(self@[j].index);
                        assert(self@[j].index == parsed);
                    }
                }
            }
        }
        r
    }
}

/// In a well-formed corpus the indices are pairwise distinct and
/// sorted ascending: as dates, by their ordering keys, and in their
/// `YYYY-MM-DD` text forms.
pub proof fn lemma_indices_sorted_distinct(l: PostList, i: int, j: int)
    requires
        l.wf(),
        0 <= i < j < l@.len(),
    ensures
        l@[i].index.key() < l@[j].index.key(),
        l@[i].index != l@[j].index,
        date_text(l@[i].index) != date_text(l@[j].index),
{
    if date_text(l@[i].index) == date_text(l@[j].index) {
        lemma_date_text_injective(l@[i].index, l@[j].index);
    }
}

/// A non-owning positional view into a `PostList`: a post bundled
/// with O(1) access to its chronological neighbors. It never outlives
/// the list and cannot change it.
pub struct PostRef<'a> {
    pub list: &'a PostList,
    pub pos: usize,
}

impl<'a> PostRef<'a> {
    /// The handle points inside its list.
    pub open spec fn in_bounds(self) -> bool {
        self.pos < self.list@.len()
    }

    /// The post this handle names.
    pub fn get(&self) -> (r: &'a Post)
        requires
            self.in_bounds(),
        ensures
            *r == self.list@[self.pos as int],
    {
        self.list.get(self.pos)
    }

    /// The chronological predecessor: the handle one position earlier,
    /// absent exactly at the first (oldest) post.
    pub fn prev(&self) -> (r: Option<PostRef<'a>>)
        requires
            self.in_bounds(),
        ensures
            self.pos == 0 ==> r is None,
            self.pos > 0 ==> (r matches Some(p) && p.list@ == self.list@ && p.pos == self.pos
                - 1),
    {
        if self.pos > 0 {
            Some(PostRef { list: self.list, pos: self.pos - 1 })
        } else {
            None
        }
    }

    /// The chronological successor: the handle one position later,
    /// absent exactly at the last (most recent) post.
    pub fn next(&self) -> (r: Option<PostRef<'a>>)
        requires
            self.in_bounds(),
        ensures
            self.pos == self.list@.len() - 1 ==> r is None,
            self.pos < self.list@.len() - 1 ==> (r matches Some(p) && p.list@ == self.list@
                && p.pos == self.pos + 1),
    {
        if self.pos < self.list.len() - 1 {
            Some(PostRef { list: self.list, pos: self.pos + 1 })
        } else {
            None
        }
    }
}

/// The index a raw entry's directory name spells.
pub open spec fn raw_index(raw: RawPost) -> Date {
    date_of_text(raw.dir_name@)
}

/// Some position of the sequence holds the post parsed from the raw
/// entry.
pub open spec fn appears_in(raw: RawPost, s: Seq<Post>) -> bool {
    exists|i: int| 0 <= i < s.len() && post_from_raw(raw, #[trigger] s[i])
}

/// No two raw entries spell the same index.
pub open spec fn raws_distinct(raws: Seq<RawPost>) -> bool {
    forall|a: int, b: int|
        #![trigger raws[a], raws[b]]
        0 <= a < b < raws.len() ==> raw_index(raws[a]).key() != raw_index(raws[b]).key()
}

/// Parses every raw entry and assembles the corpus: the single entry
/// point over plain values. Fail-fast: the first entry rejected, in
/// input order, names the error; then a duplicate index; then an empty
/// corpus. On success the list holds exactly the parsed posts, sorted
/// ascending by index.
pub fn build_posts(raws: Vec<RawPost>) -> (r: Result<PostList, LoadError>)
    ensures
        r is Ok <==> (raws@.len() > 0 && (forall|k: int|
            0 <= k < raws@.len() ==> parse_accepts(#[trigger] raws@[k])) && raws_distinct(raws@)),
        r matches Ok(l) ==> l.wf() && l@.len() == raws@.len() && (forall|k: int|
            0 <= k < raws@.len() ==> appears_in(#[trigger] raws@[k], l@)),
        forall|k: int|
            (0 <= k < raws@.len() && !parse_accepts(#[trigger] raws@[k]) && (forall|m: int|
                0 <= m < k ==> parse_accepts(#[trigger] raws@[m]))) ==> (r matches Err(e)
                && parse_error_spec(raws@[k], e)),
        ((forall|k: int| 0 <= k < raws@.len() ==> parse_accepts(#[trigger] raws@[k]))
            && raws@.len() > 0 && !raws_distinct(raws@)) ==> (r matches Err(
            LoadError::DuplicateIndex(s),
        ) && valid_date_text(s@) && (exists|k: int|
            0 <= k < raws@.len() && s@ == date_text(raw_index(#[trigger] raws@[k]))) && (exists|
            a: int,
            b: int,
        |
            0 <= a < b < raws@.len() && raw_index(#[trigger] raws@[a]).key() == raw_index(
                #[trigger] raws@[b],
            ).key() && raw_index(raws@[a]).key() == date_of_text(s@).key())),
        raws@.len() == 0 ==> r matches Err(LoadError::EmptyCorpus),
{
    let n = raws.len();
    let mut parsed: Vec<Post> = Vec::new();
    let mut k: usize = 0;
    while k < n
        invariant
            n == raws@.len(),
            k <= n,
            parsed@.len() == k,
            forall|m: int| 0 <= m < k ==> parse_accepts(#[trigger] raws@[m]),
            forall|m: int| 0 <= m < k ==> post_from_raw(raws@[m], #[trigger] parsed@[m]),
        decreases n - k,
    {
        match parse_post(&raws[k]) {
            Ok(p) => {
                parsed.push(p);
            },
            Err(e) => {
                return Err(e);
            },
        }
        k += 1;
    }
    proof {
        if distinct_keys(parsed@) {
            assert forall|a: int, b: int|
                #![trigger raws@[a], raws@[b]]
                0 <= a < b < raws@.len() implies raw_index(raws@[a]).key() != raw_index(
                raws@[b],
            ).key() by {
                assert(post_from_raw(raws@[a], parsed@[a]));
                assert(post_from_raw(raws@[b], parsed@[b]));
                assert(parsed@[a].index.key() != parsed@[b].index.key());
            }
        }
        if raws_distinct(raws@) {
            assert forall|a: int, b: int|
                #![trigger parsed@[a], parsed@[b]]
                0 <= a < b < parsed@.len() implies parsed@[a].index.key() != parsed@[b].index.key() by {
                assert(post_from_raw(raws@[a], parsed@[a]));
                assert(post_from_raw(raws@[b], parsed@[b]));
                assert(raw_index(raws@[a]).key() != raw_index(raws@[b]).key());
            }
            assert(distinct_keys(parsed@));
        }
        assert(distinct_keys(parsed@) == raws_distinct(raws@));
        assert(forall|m: int| 0 <= m < parsed@.len() ==> (#[trigger] parsed@[m]).wf());
    }
    let ghost parsed_view = parsed@;
    let r = PostList::new(parsed);
    proof {
        if r is Ok {
            let l = r->Ok_0;
            broadcast use vstd::seq_lib::group_to_multiset_ensures;
            broadcast use vstd::multiset::group_multiset_axioms;

            assert forall|q: int| 0 <= q < raws@.len() implies appears_in(
                #[trigger] raws@[q],
                l@,
            ) by {
                assert(parsed_view.contains(parsed_view[q]));
                assert(l@.to_multiset().count(parsed_view[q]) > 0);
                assert(l@.contains(parsed_view[q]));
                let i = l@.lemma_contains_to_index(parsed_view[q]);
                assert(post_from_raw(raws@[q], l@[i]));
            }
        }
        if r is Err && r->Err_0 is DuplicateIndex {
            let s = r->Err_0->DuplicateIndex_0;
            let k0 = choose|k0: int|
                0 <= k0 < parsed_view.len() && s@ == date_text(#[trigger] parsed_view[k0].index);
            assert(s@ == date_text(raw_index(raws@[k0])));
            let (a, b): (int, int) = choose|a: int, b: int|
                0 <= a < b < parsed_view.len() && (#[trigger] parsed_view[a]).index.key() == (
                #[trigger] parsed_view[b]).index.key() && parsed_view[a].index.key()
                    == date_of_text(s@).key();
            assert(post_from_raw(raws@[a], parsed_view[a]));
            assert(post_from_raw(raws@[b], parsed_view[b]));
            assert(raw_index(raws@[a]).key() == raw_index(raws@[b]).key() && raw_index(
                raws@[a],
            ).key() == date_of_text(s@).key());
        }
    }
    r
}

} // verus!
