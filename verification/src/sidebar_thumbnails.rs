//! The thumbnails in the sidebar: the order they are listed in, which pages are
//! bookmarked, and which page stands where in the list.
//!
//! The list may start with a blank place, so that the pages of a dual layout
//! stand in pairs. A position in the list counts that place; a position in the
//! order does not.
use std::collections::{HashMap, HashSet};

use vstd::prelude::*;
use vstd::std_specs::iter::IteratorSpec;

use crate::pdf_mutation::picked;
use crate::text::{
    chars_of, decimal_has_no_comma, format_i32, integer_reads_back, join, joined,
    joined_texts_split_back, lacks, parse_integer, parsed_integer, pieces,
    separated_texts_keep_their_pieces, signed_decimal, split_on, string_of, texts,
};
use crate::thumbnail_cache::{cut_down, entry_position, without_key, ThumbnailCache};

verus! {

broadcast use vstd::std_specs::hash::group_hash_axioms;

// ---------------------------------------------------------------------------
// Lists of numbers as text
// ---------------------------------------------------------------------------

/// The numbers among `parts`, in order; other texts are passed over.
pub open spec fn numbers_in(parts: Seq<Seq<char>>) -> Seq<i32>
    decreases parts.len(),
{
    if parts.len() == 0 {
        Seq::empty()
    } else {
        let before = numbers_in(parts.drop_last());
        match parsed_integer(parts.last()) {
            Some(n) => before.push(n as i32),
            None => before,
        }
    }
}

/// The numbers in a text between its commas.
pub open spec fn listed_numbers(s: Seq<char>) -> Seq<i32> {
    numbers_in(pieces(s, ','))
}

/// The texts of numbers.
pub open spec fn number_texts(list: Seq<i32>) -> Seq<Seq<char>> {
    list.map_values(|n: i32| signed_decimal(n as int))
}

/// Numbers as a text with commas between them.
pub open spec fn number_list(list: Seq<i32>) -> Seq<char> {
    joined(number_texts(list), ","@)
}

fn parse_number_list(s: &str) -> (v: Vec<i32>)
    ensures
        v@ == listed_numbers(s@),
{
    let parts = split_on(&chars_of(s), ',');
    let ghost all = texts(parts@);
    let mut v: Vec<i32> = Vec::new();
    let mut i: usize = 0;
    while i < parts.len()
        invariant
            i <= parts@.len(),
            all == texts(parts@),
            v@ == numbers_in(all.take(i as int)),
        decreases parts@.len() - i,
    {
        assert(all.take(i + 1).drop_last() == all.take(i as int));
        assert(all.take(i + 1).last() == parts@[i as int]@);
        if let Some(n) = parse_integer(&parts[i]) {
            v.push(n);
        }
        i = i + 1;
    }
    assert(all.take(all.len() as int) == all);
    v
}

fn write_number_list(list: &Vec<i32>) -> (s: String)
    ensures
        s@ == number_list(list@),
{
    let mut parts: Vec<Vec<char>> = Vec::new();
    let mut i: usize = 0;
    while i < list.len()
        invariant
            i <= list@.len(),
            parts@.len() == i,
            forall|k: int| 0 <= k < i ==> (#[trigger] parts@[k])@ == signed_decimal(list@[k] as int),
        decreases list@.len() - i,
    {
        parts.push(format_i32(list[i]));
        i = i + 1;
    }
    assert(texts(parts@) =~= number_texts(list@));
    string_of(&join(&parts, &chars_of(",")))
}

proof fn lemma_numbers_back(list: Seq<i32>)
    ensures
        numbers_in(number_texts(list)) == list,
    decreases list.len(),
{
    if list.len() > 0 {
        lemma_numbers_back(list.drop_last());
        assert(number_texts(list).drop_last() == number_texts(list.drop_last()));
        integer_reads_back(list.last() as int);
        assert(list == list.drop_last().push(list.last()));
    }
}

/// A list of numbers reads back from its text.
pub proof fn number_list_reads_back(list: Seq<i32>)
    ensures
        listed_numbers(number_list(list)) == list,
{
    reveal_strlit(",");
    assert(","@ =~= seq![',']);
    lemma_numbers_back(list);
    let parts = number_texts(list);
    if list.len() > 0 {
        assert forall|i: int| 0 <= i < parts.len() implies lacks(#[trigger] parts[i], ',') by {
            decimal_has_no_comma(list[i] as int);
        }
        joined_texts_split_back(parts, ',');
    } else {
        let none = Seq::<char>::empty();
        assert(number_list(list) =~= none);
        assert(pieces(none, ',') =~= seq![none]);
        reveal_with_fuel(numbers_in, 2);
        assert(seq![none].drop_last() =~= Seq::<Seq<char>>::empty());
        assert(listed_numbers(none) =~= list);
    }
}

// ---------------------------------------------------------------------------
// Orders
// ---------------------------------------------------------------------------

/// Whether `order` lists each page of a document of `n` pages once.
pub open spec fn is_permutation(order: Seq<i32>, n: int) -> bool {
    &&& order.len() == n
    &&& forall|i: int| 0 <= i < order.len() ==> 0 <= #[trigger] order[i] < n
    &&& forall|i: int, j: int| 0 <= i < j < order.len() ==> order[i] != order[j]
}

/// The pages of a document of `n` pages in their own order.
pub open spec fn identity_order(n: int) -> Seq<i32> {
    Seq::new(
        if n < 0 {
            0
        } else {
            n as nat
        },
        |i: int| i as i32,
    )
}

/// The order that a stored text gives for a document of `n` pages: the pages'
/// own order, where there is no text or it lists something else than each page
/// once.
pub open spec fn loaded_order(stored: Option<Seq<char>>, n: int) -> Seq<i32> {
    match stored {
        Some(s) => if is_permutation(listed_numbers(s), n) {
            listed_numbers(s)
        } else {
            identity_order(n)
        },
        None => identity_order(n),
    }
}

/// Where `page` stands in `order`, from position `from` on.
pub open spec fn position_of(order: Seq<i32>, page: i32, from: int) -> Option<int>
    decreases order.len() - from,
{
    if from >= order.len() {
        None
    } else if order[from] == page {
        Some(from)
    } else {
        position_of(order, page, from + 1)
    }
}

/// `order` with `source` at the place of `target`; as it is, where one of them
/// is no page of it or they are the same.
pub open spec fn moved(order: Seq<i32>, source: i32, target: i32) -> Seq<i32> {
    if source == target || source < 0 || target < 0 {
        order
    } else {
        match position_of(order, source, 0) {
            None => order,
            Some(from) => {
                let to = match position_of(order, target, 0) {
                    Some(to) => to,
                    None => from,
                };
                order.remove(from).insert(to, source)
            },
        }
    }
}

fn identity(n: i32) -> (v: Vec<i32>)
    ensures
        v@ == identity_order(n as int),
{
    let mut v: Vec<i32> = Vec::new();
    let mut i: i32 = 0;
    while i < n
        invariant
            0 <= i,
            i <= n || i == 0,
            v@.len() == i,
            forall|k: int| 0 <= k < i ==> #[trigger] v@[k] == k,
        decreases n - i,
    {
        v.push(i);
        i = i + 1;
    }
    assert(v@ =~= identity_order(n as int));
    v
}

fn check_permutation(order: &Vec<i32>, n: i32) -> (r: bool)
    ensures
        r == is_permutation(order@, n as int),
{
    if n < 0 || order.len() as u64 != n as u64 {
        return false;
    }
    let mut seen: HashSet<i32> = HashSet::new();
    let mut i: usize = 0;
    while i < order.len()
        invariant
            i <= order@.len(),
            order@.len() == n,
            forall|k: int| 0 <= k < i ==> 0 <= #[trigger] order@[k] < n,
            forall|a: int, b: int| 0 <= a < b < i ==> order@[a] != order@[b],
            forall|p: i32| #[trigger] seen@.contains(p) <==> order@.take(i as int).contains(p),
        decreases order@.len() - i,
    {
        let p: i32 = order[i];
        if p < 0 || p >= n {
            return false;
        }
        let ghost before = seen@;
        let fresh = seen.insert(p);
        if !fresh {
            proof {
                assert(before.contains(p));
                let k = order@.take(i as int).index_of(p);
                assert(order@[k] == p);
            }
            return false;
        }
        proof {
            let now = order@.take(i + 1);
            let was = order@.take(i as int);
            assert(now =~= was.push(p));
            assert forall|k: int| 0 <= k < i implies order@[k] != p by {
                if order@[k] == p {
                    assert(was[k] == p);
                    assert(was.contains(p));
                }
            }
            assert forall|q: i32| #[trigger] seen@.contains(q) <==> now.contains(q) by {
                if was.contains(q) {
                    assert(now[was.index_of(q)] == q);
                }
                if q == p {
                    assert(now[i as int] == q);
                }
                if now.contains(q) && q != p {
                    assert(was[now.index_of(q)] == q);
                }
            }
        }
        i = i + 1;
    }
    true
}

fn find_page(order: &Vec<i32>, page: i32) -> (r: Option<usize>)
    ensures
        match position_of(order@, page, 0) {
            Some(i) => r == Some(i as usize) && 0 <= i < order@.len() && order@[i] == page,
            None => r is None && !order@.contains(page),
        },
{
    let mut i: usize = 0;
    while i < order.len()
        invariant
            i <= order@.len(),
            forall|k: int| 0 <= k < i ==> order@[k] != page,
            position_of(order@, page, 0) == position_of(order@, page, i as int),
        decreases order@.len() - i,
    {
        if order[i] == page {
            return Some(i);
        }
        i = i + 1;
    }
    None
}

proof fn lemma_moved_permutation(order: Seq<i32>, from: int, to: int, n: int)
    requires
        is_permutation(order, n),
        0 <= from < n,
        0 <= to < n,
    ensures
        is_permutation(order.remove(from).insert(to, order[from]), n),
{
    let cut = order.remove(from);
    let now = cut.insert(to, order[from]);
    assert forall|i: int| 0 <= i < now.len() implies #[trigger] now[i] == order[source_index(
        from,
        to,
        i,
    )] by {}
    assert forall|i: int, j: int| 0 <= i < j < now.len() implies now[i] != now[j] by {
        let a = source_index(from, to, i);
        let b = source_index(from, to, j);
        assert(a != b);
        assert(now[i] == order[a]);
        assert(now[j] == order[b]);
    }
}

/// Where the item at position `i` stood before one moved from `from` to `to`.
spec fn source_index(from: int, to: int, i: int) -> int {
    if i == to {
        from
    } else {
        let k = if i < to {
            i
        } else {
            i - 1
        };
        if k < from {
            k
        } else {
            k + 1
        }
    }
}

/// Moving a thumbnail keeps each page in the order once.
pub proof fn moved_order_is_permutation(order: Seq<i32>, n: int, source: i32, target: i32)
    requires
        is_permutation(order, n),
    ensures
        is_permutation(moved(order, source, target), n),
{
    lemma_position(order, source, 0);
    lemma_position(order, target, 0);
    if source != target && source >= 0 && target >= 0 {
        match position_of(order, source, 0) {
            None => {},
            Some(from) => {
                let to = match position_of(order, target, 0) {
                    Some(to) => to,
                    None => from,
                };
                lemma_moved_permutation(order, from, to, n);
            },
        }
    }
}

proof fn lemma_position(order: Seq<i32>, page: i32, from: int)
    requires
        0 <= from <= order.len(),
    ensures
        match position_of(order, page, from) {
            Some(i) => from <= i < order.len() && order[i] == page,
            None => forall|i: int| from <= i < order.len() ==> order[i] != page,
        },
    decreases order.len() - from,
{
    if from < order.len() && order[from] != page {
        lemma_position(order, page, from + 1);
    }
}

/// After a thumbnail was moved, it stands where the other one stood.
pub proof fn moved_page_takes_the_place(order: Seq<i32>, n: int, source: i32, target: i32)
    requires
        is_permutation(order, n),
        source != target,
        position_of(order, source, 0) is Some,
        position_of(order, target, 0) is Some,
    ensures
        moved(order, source, target)[position_of(order, target, 0)->Some_0] == source,
{
    lemma_position(order, source, 0);
    lemma_position(order, target, 0);
}

/// The order of a document of which none was stored, or none that fits, is a
/// permutation of its pages.
pub proof fn loaded_order_is_permutation(stored: Option<Seq<char>>, n: int)
    requires
        0 <= n <= i32::MAX,
    ensures
        is_permutation(loaded_order(stored, n), n),
{
    let own = identity_order(n);
    assert forall|i: int, j: int| 0 <= i < j < own.len() implies own[i] != own[j] by {}
    assert(is_permutation(own, n));
}

/// An order that was stored is the order that is loaded, for a document of as
/// many pages.
pub proof fn stored_order_loads_back(order: Seq<i32>, n: int)
    requires
        is_permutation(order, n),
    ensures
        loaded_order(Some(number_list(order)), n) == order,
{
    number_list_reads_back(order);
}

// ---------------------------------------------------------------------------
// The sidebar
// ---------------------------------------------------------------------------

/// A place in the list: a page, or the blank place at its start.
#[derive(Clone, Copy, Debug, PartialEq, Eq, Structural)]
pub struct ThumbnailRow {
    pub page: Option<i32>,
    pub bookmarked: bool,
}

/// The state of the sidebar as a mathematical value.
#[verifier::ext_equal]
pub struct ThumbnailsModel {
    /// Whether the list starts with a blank place.
    pub blank_head: bool,
    /// The pages that are bookmarked.
    pub bookmarks: Set<i32>,
    /// The pages in the order they are listed in.
    pub order: Seq<i32>,
    /// The thumbnails that are kept, the least recently used first.
    pub cache: Seq<(u32, u64)>,
}

impl ThumbnailsModel {
    /// The page at a position in the list, or -1.
    pub open spec fn page_at(self, store_index: int) -> int {
        let place = if self.blank_head {
            store_index - 1
        } else {
            store_index
        };
        if 0 <= place < self.order.len() {
            self.order[place] as int
        } else {
            -1
        }
    }

    /// Where a page stands in the list. A page that the order does not hold
    /// stands where its own number says.
    pub open spec fn index_of(self, doc_page: i32) -> int {
        let place = match position_of(self.order, doc_page, 0) {
            Some(i) => i,
            None => doc_page as int,
        };
        if self.blank_head {
            place + 1
        } else {
            place
        }
    }

    /// The places in the list.
    pub open spec fn rows(self) -> Seq<ThumbnailRow> {
        (if self.blank_head {
            seq![ThumbnailRow { page: None, bookmarked: false }]
        } else {
            Seq::empty()
        }) + self.order.map_values(
            |p: i32| ThumbnailRow { page: Some(p), bookmarked: self.bookmarks.contains(p) },
        )
    }

    /// Whether moving `source` to the place of `target` does anything.
    pub open spec fn can_move(self, source: i32, target: i32) -> bool {
        source != target && source >= 0 && target >= 0 && position_of(self.order, source, 0) is Some
    }
}

/// The thumbnails in the sidebar.
pub struct PpsSidebarThumbnails {
    blank_head: bool,
    bookmarks: HashSet<i32>,
    order: Vec<i32>,
    order_index: HashMap<i32, i32>,
    cache: ThumbnailCache,
}

impl View for PpsSidebarThumbnails {
    type V = ThumbnailsModel;

    closed spec fn view(&self) -> ThumbnailsModel {
        ThumbnailsModel {
            blank_head: self.blank_head,
            bookmarks: self.bookmarks@,
            order: self.order@,
            cache: self.cache@,
        }
    }
}

/// Whether `index` holds the position of each page of `order`, and of no other.
spec fn indexes(index: Map<i32, i32>, order: Seq<i32>) -> bool {
    &&& forall|i: int|
        0 <= i < order.len() ==> index.contains_key(#[trigger] order[i]) && index[order[i]] == i
    &&& forall|p: i32| #[trigger]
        index.contains_key(p) ==> 0 <= index[p] < order.len() && order[index[p] as int] == p
}

fn build_index(order: &Vec<i32>) -> (index: HashMap<i32, i32>)
    requires
        is_permutation(order@, order@.len() as int),
        order@.len() <= i32::MAX,
    ensures
        indexes(index@, order@),
{
    let mut index: HashMap<i32, i32> = HashMap::new();
    let mut i: usize = 0;
    assert(indexes(index@, order@.take(0)));
    while i < order.len()
        invariant
            i <= order@.len() <= i32::MAX,
            is_permutation(order@, order@.len() as int),
            indexes(index@, order@.take(i as int)),
        decreases order@.len() - i,
    {
        let page: i32 = order[i];
        let ghost before = index@;
        index.insert(page, i as i32);
        proof {
            let was = order@.take(i as int);
            let now = order@.take(i + 1);
            assert(now =~= was.push(page));
            assert forall|k: int| 0 <= k < now.len() implies index@.contains_key(#[trigger] now[k])
                && index@[now[k]] == k by {
                if k < i {
                    assert(was[k] == now[k]);
                    assert(order@[k] != order@[i as int]);
                }
            }
            assert forall|p: i32| #[trigger] index@.contains_key(p) implies 0 <= index@[p]
                < now.len() && now[index@[p] as int] == p by {
                if p != page {
                    assert(before.contains_key(p));
                }
            }
        }
        i = i + 1;
    }
    assert(order@.take(order@.len() as int) == order@);
    index
}

impl PpsSidebarThumbnails {
    /// Whether the order lists each page of a document once and is indexed.
    pub closed spec fn wf(&self) -> bool {
        &&& is_permutation(self.order@, self.order@.len() as int)
        &&& self.order@.len() <= i32::MAX
        &&& indexes(self.order_index@, self.order@)
        &&& self.cache.wf()
    }

    /// A sidebar without a document.
    pub fn new() -> (t: Self)
        ensures
            t.wf(),
            t@ == (ThumbnailsModel {
                blank_head: false,
                bookmarks: Set::empty(),
                order: Seq::empty(),
                cache: Seq::empty(),
            }),
    {
        PpsSidebarThumbnails {
            blank_head: false,
            bookmarks: HashSet::new(),
            order: Vec::new(),
            order_index: HashMap::new(),
            cache: ThumbnailCache::new(),
        }
    }

    /// Whether the list starts with a blank place.
    pub fn blank_head_mode(&self) -> (r: bool)
        ensures
            r == self@.blank_head,
    {
        self.blank_head
    }

    fn replace_order(&mut self, order: Vec<i32>)
        requires
            old(self).wf(),
            is_permutation(order@, order@.len() as int),
            order@.len() <= i32::MAX,
        ensures
            final(self).wf(),
            final(self)@ == (ThumbnailsModel { order: order@, ..old(self)@ }),
    {
        self.order_index = build_index(&order);
        self.order = order;
    }

    /// Takes over the order that was stored for a document of `n_pages` pages:
    /// the pages' own order, where none was or it does not list each page once.
    pub fn load_order(&mut self, n_pages: i32, stored: Option<&str>)
        requires
            old(self).wf(),
        ensures
            final(self).wf(),
            final(self)@ == (ThumbnailsModel {
                order: loaded_order(
                    match stored {
                        Some(s) => Some(s@),
                        None => None,
                    },
                    n_pages as int,
                ),
                ..old(self)@
            }),
    {
        let mut order = identity(n_pages);
        assert(is_permutation(order@, order@.len() as int));
        assert(order@.len() <= i32::MAX);
        if let Some(s) = stored {
            let parsed = parse_number_list(s);
            if check_permutation(&parsed, n_pages) {
                order = parsed;
            }
        }
        self.replace_order(order);
    }

    /// The text to store the order by.
    pub fn store_order(&self) -> (s: String)
        ensures
            s@ == number_list(self@.order),
    {
        write_number_list(&self.order)
    }

    /// Moves the thumbnail of `source_doc_page` to where that of
    /// `target_doc_page` stands. The result is the text to store the order by;
    /// there is none where nothing was done. The document keeps its own order.
    pub fn reorder(&mut self, source_doc_page: i32, target_doc_page: i32) -> (r: Option<String>)
        requires
            old(self).wf(),
        ensures
            final(self).wf(),
            if old(self)@.can_move(source_doc_page, target_doc_page) {
                final(self)@ == (ThumbnailsModel {
                    order: moved(old(self)@.order, source_doc_page, target_doc_page),
                    cache: Seq::empty(),
                    ..old(self)@
                }) && (r matches Some(s) && s@ == number_list(final(self)@.order))
            } else {
                final(self)@ == old(self)@ && r is None
            },
    {
        if source_doc_page == target_doc_page || source_doc_page < 0 || target_doc_page < 0 {
            return None;
        }
        let from: usize = match find_page(&self.order, source_doc_page) {
            Some(i) => i,
            None => {
                return None;
            },
        };
        let to: usize = match find_page(&self.order, target_doc_page) {
            Some(i) => i,
            None => from,
        };
        proof {
            moved_order_is_permutation(
                self@.order,
                self@.order.len() as int,
                source_doc_page,
                target_doc_page,
            );
        }
        let mut order = self.order.clone();
        assert(order@ =~= self.order@);
        let page: i32 = order.remove(from);
        order.insert(to, page);
        self.replace_order(order);
        self.cache.clear();
        Some(self.store_order())
    }

    /// The pages in the order they are listed in.
    pub fn current_order(&self) -> (v: Vec<i32>)
        ensures
            v@ == self@.order,
    {
        let v = self.order.clone();
        assert(v@ =~= self.order@);
        v
    }

    /// Goes back to the pages' own order. The result is the text to store it
    /// by. For when the document itself was brought into the order listed.
    pub fn reset_order(&mut self) -> (s: String)
        requires
            old(self).wf(),
        ensures
            final(self).wf(),
            final(self)@ == (ThumbnailsModel {
                order: identity_order(old(self)@.order.len() as int),
                cache: Seq::empty(),
                ..old(self)@
            }),
            s@ == number_list(final(self)@.order),
    {
        let n: i32 = self.order.len() as i32;
        let order = identity(n);
        assert(is_permutation(order@, order@.len() as int));
        self.replace_order(order);
        self.cache.clear();
        self.store_order()
    }

    /// The page at a position in the list, or -1 where none is.
    pub fn page_of_document(&self, store_index: i32) -> (page: i32)
        ensures
            page == self@.page_at(store_index as int),
    {
        if self.blank_head && store_index <= 0 {
            return -1;
        }
        let place: i32 = if self.blank_head {
            store_index - 1
        } else {
            store_index
        };
        if place < 0 || place as usize >= self.order.len() {
            return -1;
        }
        self.order[place as usize]
    }

    /// Where a page stands in the list. A page that is not listed stands where
    /// its own number says.
    pub fn index_of_store(&self, doc_page: i32) -> (i: i32)
        requires
            self.wf(),
            self@.blank_head ==> doc_page < i32::MAX,
        ensures
            i == self@.index_of(doc_page),
    {
        proof {
            lemma_position(self.order@, doc_page, 0);
            if let Some(p) = position_of(self.order@, doc_page, 0) {
                assert(self.order_index@.contains_key(self.order@[p]));
            }
        }
        let place: i32 = match self.order_index.get(&doc_page) {
            Some(i) => *i,
            None => doc_page,
        };
        if self.blank_head {
            place + 1
        } else {
            place
        }
    }

    /// Takes over the bookmarks that were stored; none, where none were.
    pub fn load_bookmarks(&mut self, stored: Option<&str>)
        requires
            old(self).wf(),
        ensures
            final(self).wf(),
            final(self)@ == (ThumbnailsModel {
                bookmarks: match stored {
                    Some(s) => listed_numbers(s@).to_set(),
                    None => Set::empty(),
                },
                ..old(self)@
            }),
    {
        self.bookmarks.clear();
        if let Some(s) = stored {
            let list = parse_number_list(s);
            let mut i: usize = 0;
            assert(list@.take(0).to_set() =~= Set::empty());
            while i < list.len()
                invariant
                    i <= list@.len(),
                    list@ == listed_numbers(s@),
                    self.wf(),
                    self@ == (ThumbnailsModel {
                        bookmarks: list@.take(i as int).to_set(),
                        ..old(self)@
                    }),
                decreases list@.len() - i,
            {
                let ghost was = list@.take(i as int);
                let ghost now = list@.take(i + 1);
                proof {
                    assert(now =~= was.push(list@[i as int]));
                    assert(now.to_set() =~= was.to_set().insert(list@[i as int])) by {
                        assert forall|p: i32| #[trigger] now.to_set().contains(p) <==> was.to_set()
                            .insert(list@[i as int])
                            .contains(p) by {
                            if was.contains(p) {
                                assert(now[was.index_of(p)] == p);
                            }
                            assert(now[i as int] == list@[i as int]);
                            if now.contains(p) && p != list@[i as int] {
                                assert(was[now.index_of(p)] == p);
                            }
                        }
                    }
                }
                self.bookmarks.insert(list[i]);
                i = i + 1;
            }
            assert(list@.take(list@.len() as int) =~= list@);
        }
    }

    /// The text to store the bookmarks by: it lists each of them once, in no
    /// particular order.
    pub fn store_bookmarks(&self) -> (s: String)
        ensures
            exists|list: Seq<i32>|
                s@ == #[trigger] number_list(list) && list.to_set() == self@.bookmarks
                    && list.no_duplicates(),
    {
        let mut list: Vec<i32> = Vec::new();
        let pages = self.bookmarks.iter();
        let ghost found = pages.remaining();
        let ghost all = found.unref();
        assert(all.to_set() == self.bookmarks@);
        assert(all.no_duplicates()) by {
            assert forall|i: int, j: int| 0 <= i < j < all.len() implies all[i] != all[j] by {
                assert(found[i] != found[j]);
            }
        }
        for p in it: pages
            invariant
                it.seq() == found,
                all == found.unref(),
                list@ == all.take(it.index()),
        {
            list.push(*p);
            assert(all.take(it.index() + 1) =~= all.take(it.index()).push(*p));
        }
        assert(all.take(all.len() as int) =~= all);
        write_number_list(&list)
    }

    /// Whether a page is bookmarked.
    pub fn is_bookmarked(&self, doc_page: i32) -> (r: bool)
        ensures
            r == self@.bookmarks.contains(doc_page),
    {
        self.bookmarks.contains(&doc_page)
    }

    /// Bookmarks a page, or takes its bookmark away. The result is where the
    /// page stands in the list and the text to store the bookmarks by.
    pub fn set_bookmarked(&mut self, doc_page: i32, bookmarked: bool) -> (r: (i32, String))
        requires
            old(self).wf(),
            old(self)@.blank_head ==> doc_page < i32::MAX,
        ensures
            final(self).wf(),
            final(self)@ == (ThumbnailsModel {
                bookmarks: if bookmarked {
                    old(self)@.bookmarks.insert(doc_page)
                } else {
                    old(self)@.bookmarks.remove(doc_page)
                },
                ..old(self)@
            }),
            r.0 == old(self)@.index_of(doc_page),
            exists|list: Seq<i32>|
                r.1@ == #[trigger] number_list(list) && list.to_set() == final(self)@.bookmarks
                    && list.no_duplicates(),
    {
        if bookmarked {
            self.bookmarks.insert(doc_page);
        } else {
            self.bookmarks.remove(&doc_page);
        }
        let index: i32 = self.index_of_store(doc_page);
        let text = self.store_bookmarks();
        (index, text)
    }
}

/// Whether the list starts with a blank place: in a dual layout whose odd pages
/// stand on the right.
pub fn need_blank_head(dual_page: bool, odd_pages_left: bool) -> (r: bool)
    ensures
        r == (dual_page && !odd_pages_left),
{
    dual_page && !odd_pages_left
}

/// What a change of the layout does to the blank place.
#[derive(Clone, Copy, Debug, PartialEq, Eq, Structural)]
pub enum HeadChange {
    Keep,
    Insert,
    Remove,
}

/// How the list is laid out.
#[derive(Debug)]
pub struct ThumbnailLayout {
    pub head: HeadChange,
    pub columns: u32,
    pub maximum_size: i32,
    pub tightening_threshold: i32,
    pub css_class: String,
}

/// What is shown at a place of the list that comes into view.
#[derive(Clone, Copy, Debug, PartialEq, Eq, Structural)]
pub enum Binding {
    /// Nothing; the place cannot be selected.
    Blank,
    /// The thumbnail that is there.
    Shown,
    /// An empty picture until the thumbnail, which is to be rendered, is there.
    Rendering,
    /// What is being rendered already.
    Pending,
}

/// What is done with a place of the list that goes out of view.
#[derive(Clone, Copy, Debug, PartialEq, Eq, Structural)]
pub struct Unbinding {
    /// It can be selected again.
    pub make_selectable: bool,
    /// Its rendering is cancelled.
    pub cancel_job: bool,
}

impl PpsSidebarThumbnails {
    /// The places in the list of a document, with its bookmarks and its order
    /// as they were stored; none, without a document.
    pub fn fill_list_store(
        &mut self,
        n_pages: Option<i32>,
        stored_order: Option<&str>,
        stored_bookmarks: Option<&str>,
    ) -> (rows: Vec<ThumbnailRow>)
        requires
            old(self).wf(),
        ensures
            final(self).wf(),
            final(self)@.bookmarks == (match stored_bookmarks {
                Some(s) => listed_numbers(s@).to_set(),
                None => Set::empty(),
            }),
            final(self)@.blank_head == old(self)@.blank_head,
            final(self)@.cache == old(self)@.cache,
            match n_pages {
                Some(n) => final(self)@.order == loaded_order(
                    match stored_order {
                        Some(s) => Some(s@),
                        None => None,
                    },
                    n as int,
                ) && rows@ == final(self)@.rows(),
                None => final(self)@.order == old(self)@.order && rows@ == Seq::<
                    ThumbnailRow,
                >::empty(),
            },
    {
        self.load_bookmarks(stored_bookmarks);
        match n_pages {
            Some(n) => {
                self.load_order(n, stored_order);
                self.rows()
            },
            None => Vec::new(),
        }
    }

    /// The places in the list.
    pub fn rows(&self) -> (rows: Vec<ThumbnailRow>)
        ensures
            rows@ == self@.rows(),
    {
        let mut rows: Vec<ThumbnailRow> = Vec::new();
        if self.blank_head {
            rows.push(ThumbnailRow { page: None, bookmarked: false });
        }
        let ghost head = rows@;
        let ghost wanted = self@.rows();
        let mut i: usize = 0;
        while i < self.order.len()
            invariant
                i <= self.order@.len(),
                wanted == self@.rows(),
                head == (if self.blank_head {
                    seq![ThumbnailRow { page: None, bookmarked: false }]
                } else {
                    Seq::empty()
                }),
                rows@.len() == head.len() + i,
                forall|k: int| 0 <= k < rows@.len() ==> #[trigger] rows@[k] == wanted[k],
            decreases self.order@.len() - i,
        {
            let page: i32 = self.order[i];
            let bookmarked = self.bookmarks.contains(&page);
            rows.push(ThumbnailRow { page: Some(page), bookmarked });
            i = i + 1;
        }
        assert(rows@ =~= wanted);
        rows
    }

    /// Takes over the layout of the document: whether pages stand in pairs, and
    /// whether the odd ones stand on the left.
    pub fn relayout(&mut self, dual_page: bool, odd_pages_left: bool) -> (l: ThumbnailLayout)
        requires
            old(self).wf(),
        ensures
            final(self).wf(),
            final(self)@ == (ThumbnailsModel {
                blank_head: dual_page && !odd_pages_left,
                ..old(self)@
            }),
            l.head == (if final(self)@.blank_head == old(self)@.blank_head {
                HeadChange::Keep
            } else if final(self)@.blank_head {
                HeadChange::Insert
            } else {
                HeadChange::Remove
            }),
            l.columns == (if dual_page {
                2int
            } else {
                1
            }),
            l.maximum_size == 210 * l.columns,
            l.tightening_threshold == 150 * l.columns,
            l.css_class@ == (if dual_page {
                "columns-2"@
            } else {
                "columns-1"@
            }),
    {
        let wanted = need_blank_head(dual_page, odd_pages_left);
        let head = if self.blank_head == wanted {
            HeadChange::Keep
        } else if wanted {
            HeadChange::Insert
        } else {
            HeadChange::Remove
        };
        self.blank_head = wanted;
        if dual_page {
            ThumbnailLayout {
                head,
                columns: 2,
                maximum_size: 420,
                tightening_threshold: 300,
                css_class: "columns-2".to_string(),
            }
        } else {
            ThumbnailLayout {
                head,
                columns: 1,
                maximum_size: 210,
                tightening_threshold: 150,
                css_class: "columns-1".to_string(),
            }
        }
    }

    /// Whether a position in the list is the blank place.
    pub fn is_blank(&self, store_index: i32) -> (r: bool)
        ensures
            r == (self@.blank_head && store_index == 0),
    {
        self.blank_head && store_index == 0
    }

    /// The page to drag from a position in the list; the blank place has none.
    pub fn dragged_page(&self, store_index: i32) -> (r: Option<i32>)
        ensures
            r == (if self@.blank_head && store_index == 0 {
                None
            } else {
                Some(self@.page_at(store_index as int) as i32)
            }),
    {
        if self.is_blank(store_index) {
            return None;
        }
        Some(self.page_of_document(store_index))
    }

    /// What is shown at a position of the list that comes into view, where it
    /// `has_thumbnail` or `has_job` to render one.
    pub fn bind(&self, store_index: i32, has_thumbnail: bool, has_job: bool) -> (b: Binding)
        ensures
            b == (if self@.blank_head && store_index == 0 {
                Binding::Blank
            } else if has_thumbnail {
                Binding::Shown
            } else if !has_job {
                Binding::Rendering
            } else {
                Binding::Pending
            }),
    {
        if self.is_blank(store_index) {
            Binding::Blank
        } else if has_thumbnail {
            Binding::Shown
        } else if !has_job {
            Binding::Rendering
        } else {
            Binding::Pending
        }
    }

    /// What is done with a position of the list that goes out of view. The
    /// selected one goes on rendering.
    pub fn unbind(&self, store_index: i32, selected: i32, has_job: bool) -> (u: Unbinding)
        ensures
            u == (Unbinding {
                make_selectable: self@.blank_head && store_index == 0,
                cancel_job: store_index != selected && has_job,
            }),
    {
        Unbinding {
            make_selectable: self.is_blank(store_index),
            cancel_job: store_index != selected && has_job,
        }
    }

    /// The page to go to when the position `selected` was selected, unless the
    /// selection was `blocked`.
    pub fn selection_changed(&self, blocked: bool, selected: i32) -> (r: Option<i32>)
        ensures
            r == (if blocked || self@.page_at(selected as int) < 0 {
                None
            } else {
                Some(self@.page_at(selected as int) as i32)
            }),
    {
        if blocked {
            return None;
        }
        let page: i32 = self.page_of_document(selected);
        if page >= 0 {
            Some(page)
        } else {
            None
        }
    }

    /// The position to scroll to when `doc_page` became the current page, where
    /// the list is shown and has any places.
    pub fn set_current_page(&self, doc_page: i32, mapped: bool, n_items: u32) -> (r: Option<i32>)
        requires
            self.wf(),
            self@.blank_head ==> doc_page < i32::MAX,
        ensures
            r == (if mapped && n_items > 0 {
                Some(self@.index_of(doc_page) as i32)
            } else {
                None
            }),
            i32::MIN <= self@.index_of(doc_page) <= i32::MAX,
    {
        let index: i32 = self.index_of_store(doc_page);
        if mapped && n_items > 0 {
            Some(index)
        } else {
            None
        }
    }

    /// Keeps the thumbnail `item` of a position in the list.
    pub fn keep_thumbnail(&mut self, store_index: u32, item: u64) -> (r: Option<u64>)
        requires
            old(self).wf(),
            old(self)@.cache.len() < usize::MAX,
        ensures
            final(self).wf(),
            final(self)@ == (ThumbnailsModel {
                cache: without_key(old(self)@.cache, store_index).push((store_index, item)),
                ..old(self)@
            }),
            r == (match entry_position(old(self)@.cache, store_index, 0) {
                Some(i) => Some(old(self)@.cache[i].1),
                None => None,
            }),
    {
        self.cache.put(store_index, item)
    }

    /// Gives the least recently used thumbnails up where there are too many,
    /// except the items `bound`, which are shown. The result lists the items
    /// that were given up.
    pub fn lru_evict(&mut self, bound: &[u64]) -> (dropped: Vec<u64>)
        requires
            old(self).wf(),
        ensures
            final(self).wf(),
            dropped@ == cut_down(old(self)@.cache, bound@.to_set()).1,
            final(self)@ == (ThumbnailsModel {
                cache: cut_down(old(self)@.cache, bound@.to_set()).0,
                ..old(self)@
            }),
    {
        self.cache.lru_evict(bound)
    }

    /// How many thumbnails are kept.
    pub fn kept_thumbnails(&self) -> (n: usize)
        ensures
            n == self@.cache.len(),
    {
        self.cache.len()
    }

    /// Gives every thumbnail up. For when the list was filled anew.
    pub fn clear_thumbnails(&mut self)
        requires
            old(self).wf(),
        ensures
            final(self).wf(),
            final(self)@ == (ThumbnailsModel { cache: Seq::empty(), ..old(self)@ }),
    {
        self.cache.clear();
    }
}

// ---------------------------------------------------------------------------
// Laws
// ---------------------------------------------------------------------------

/// In every state of the sidebar, the order lists each of its pages once.
pub proof fn order_is_always_a_permutation(t: PpsSidebarThumbnails)
    requires
        t.wf(),
    ensures
        is_permutation(t@.order, t@.order.len() as int),
        t@.order.len() <= i32::MAX,
{
}

/// The list shows each page where the sidebar looks for it.
pub proof fn page_is_found_where_it_is_listed(m: ThumbnailsModel, doc_page: i32)
    requires
        is_permutation(m.order, m.order.len() as int),
        m.order.contains(doc_page),
    ensures
        m.page_at(m.index_of(doc_page)) == doc_page,
{
    lemma_position(m.order, doc_page, 0);
}

/// A place of the list that shows a page is the one where that page is looked
/// for.
pub proof fn place_is_found_by_its_page(m: ThumbnailsModel, store_index: int)
    requires
        is_permutation(m.order, m.order.len() as int),
        m.order.len() <= i32::MAX,
        m.page_at(store_index) >= 0,
    ensures
        m.index_of(m.page_at(store_index) as i32) == store_index,
{
    let place = if m.blank_head {
        store_index - 1
    } else {
        store_index
    };
    let page = m.order[place];
    lemma_position(m.order, page, 0);
    let i = position_of(m.order, page, 0)->Some_0;
    if i < place {
        assert(m.order[i] != m.order[place]);
    }
    if place < i {
        assert(m.order[place] != m.order[i]);
    }
}

/// Bookmarks that were stored are the bookmarks that are loaded, in whatever
/// order they were stored.
pub proof fn stored_bookmarks_load_back(list: Seq<i32>, bookmarks: Set<i32>)
    requires
        list.to_set() == bookmarks,
    ensures
        listed_numbers(number_list(list)).to_set() == bookmarks,
{
    number_list_reads_back(list);
}

/// Going back to the pages' own order lists page by page.
pub proof fn reset_order_lists_page_by_page(m: ThumbnailsModel, i: int)
    requires
        0 <= i < m.order.len() <= i32::MAX,
        m.order == identity_order(m.order.len() as int),
    ensures
        m.page_at(if m.blank_head {
            i + 1
        } else {
            i
        }) == i,
{
}

/// Once a document was brought into the order listed and the order was reset,
/// each place of the list shows what it showed before.
pub proof fn committed_order_shows_the_same(pages: Seq<int>, order: Seq<i32>, committed: Seq<u32>)
    requires
        is_permutation(order, pages.len() as int),
        pages.len() <= i32::MAX,
        committed.len() == order.len(),
        forall|i: int| 0 <= i < order.len() ==> #[trigger] committed[i] == order[i],
    ensures
        forall|i: int|
            0 <= i < order.len() ==> picked(pages, committed)[identity_order(
                order.len() as int,
            )[i] as int] == pages[#[trigger] order[i] as int],
{
    assert forall|i: int| 0 <= i < order.len() implies picked(pages, committed)[identity_order(
        order.len() as int,
    )[i] as int] == pages[#[trigger] order[i] as int] by {
        assert(committed[i] == order[i]);
    }
}

proof fn lemma_index(order: Seq<i32>, n: int, page: i32, i: int)
    requires
        is_permutation(order, n),
        0 <= i < order.len(),
        order[i] == page,
    ensures
        order.contains(page),
        order.index_of(page) == i,
        position_of(order, page, 0) == Some(i),
{
    let k = order.index_of(page);
    if k < i {
        assert(order[k] != order[i]);
    }
    if i < k {
        assert(order[i] != order[k]);
    }
    lemma_position(order, page, 0);
    let m = position_of(order, page, 0)->Some_0;
    if m < i {
        assert(order[m] != order[i]);
    }
    if i < m {
        assert(order[i] != order[m]);
    }
}

/// Moving a thumbnail to the place of another leaves all other pages in the order
/// in which they stood: without the moved page, the order is the same before and
/// after. The moved page then stands where the other one stood.
pub proof fn moving_keeps_the_others_in_order(order: Seq<i32>, n: int, source: i32, target: i32)
    requires
        is_permutation(order, n),
        order.contains(source),
        order.contains(target),
    ensures
        ({
            let now = moved(order, source, target);
            &&& now.len() == order.len()
            &&& now.contains(source)
            &&& now.index_of(source) == order.index_of(target)
            &&& now.remove(now.index_of(source)) == order.remove(order.index_of(source))
        }),
{
    let now = moved(order, source, target);
    let from = order.index_of(source);
    let to = order.index_of(target);
    lemma_index(order, n, source, from);
    lemma_index(order, n, target, to);
    moved_order_is_permutation(order, n, source, target);
    if source != target {
        assert(order[from] >= 0 && order[to] >= 0);
        let cut = order.remove(from);
        assert(now == cut.insert(to, source));
        assert(now[to] == source);
        lemma_index(now, n, source, to);
        assert(now.remove(to) =~= cut);
    }
}

/// Two pages that are not moved stand in the same order after a move as before.
pub proof fn moving_keeps_two_others_in_order(
    order: Seq<i32>,
    n: int,
    source: i32,
    target: i32,
    a: i32,
    b: i32,
)
    requires
        is_permutation(order, n),
        order.contains(source),
        order.contains(target),
        order.contains(a),
        order.contains(b),
        a != source,
        b != source,
    ensures
        ({
            let now = moved(order, source, target);
            &&& now.contains(a)
            &&& now.contains(b)
            &&& now.index_of(a) < now.index_of(b) <==> order.index_of(a) < order.index_of(b)
        }),
{
    let now = moved(order, source, target);
    moving_keeps_the_others_in_order(order, n, source, target);
    moved_order_is_permutation(order, n, source, target);
    let from = order.index_of(source);
    let to = now.index_of(source);
    let cut = order.remove(from);
    assert(cut == now.remove(to));
    let i = order.index_of(a);
    let j = order.index_of(b);
    let ci = if i < from {
        i
    } else {
        i - 1
    };
    let cj = if j < from {
        j
    } else {
        j - 1
    };
    assert(cut[ci] == a);
    assert(cut[cj] == b);
    let ni = if ci < to {
        ci
    } else {
        ci + 1
    };
    let nj = if cj < to {
        cj
    } else {
        cj + 1
    };
    assert(now[ni] == now.remove(to)[ci]);
    assert(now[nj] == now.remove(to)[cj]);
    lemma_index(now, n, a, ni);
    lemma_index(now, n, b, nj);
}

/// A move of or to something that is no page listed, or of a page to its own
/// place, changes nothing.
pub proof fn moving_nowhere_changes_nothing(order: Seq<i32>, n: int, source: i32, target: i32)
    requires
        is_permutation(order, n),
        source == target || !order.contains(source) || !order.contains(target),
    ensures
        moved(order, source, target) == order,
{
    lemma_position(order, source, 0);
    lemma_position(order, target, 0);
    if let Some(from) = position_of(order, source, 0) {
        if position_of(order, target, 0) is None {
            assert(order.remove(from).insert(from, source) =~= order);
        }
    }
}

proof fn lemma_numbers_of_both(a: Seq<Seq<char>>, b: Seq<Seq<char>>)
    ensures
        numbers_in(a + b) == numbers_in(a) + numbers_in(b),
    decreases b.len(),
{
    if b.len() == 0 {
        assert(a + b =~= a);
        assert(numbers_in(a) + numbers_in(b) =~= numbers_in(a));
    } else {
        lemma_numbers_of_both(a, b.drop_last());
        assert((a + b).drop_last() =~= a + b.drop_last());
        assert((a + b).last() == b.last());
        assert(numbers_in(a + b) =~= numbers_in(a) + numbers_in(b));
    }
}

/// The numbers listed in two texts with a comma between them are those of the one
/// and then those of the other. A text without a comma lists the number that it
/// writes, or none, where it writes none.
pub proof fn listed_numbers_stand_between_commas(s: Seq<char>, t: Seq<char>, part: Seq<char>)
    requires
        lacks(part, ','),
    ensures
        listed_numbers(s.push(',') + t) == listed_numbers(s) + listed_numbers(t),
        listed_numbers(part) == (match parsed_integer(part) {
            Some(n) => seq![n as i32],
            None => Seq::empty(),
        }),
{
    separated_texts_keep_their_pieces(s, t, ',');
    lemma_numbers_of_both(pieces(s, ','), pieces(t, ','));
    joined_texts_split_back(seq![part], ',');
    assert(joined(seq![part], seq![',']) == part);
    assert(seq![part].drop_last() =~= Seq::<Seq<char>>::empty());
    reveal_with_fuel(numbers_in, 2);
    if let Some(n) = parsed_integer(part) {
        assert(listed_numbers(part) =~= seq![n as i32]);
    }
}

/// A document of which no order was stored lists its pages in their own order, and
/// so does one whose stored order has not as many pages, has one twice or has one
/// that the document does not have.
pub proof fn unfit_order_gives_the_own_order(list: Seq<i32>, n: int, i: int)
    requires
        0 <= i < n <= i32::MAX,
        ({
            ||| list.len() != n
            ||| exists|a: int, b: int|
                0 <= a < b < list.len() && #[trigger] list[a] == #[trigger] list[b]
            ||| exists|a: int|
                0 <= a < list.len() && ((#[trigger] list[a]) < 0 || list[a] >= n)
        }),
    ensures
        loaded_order(Some(number_list(list)), n).len() == n,
        loaded_order(Some(number_list(list)), n)[i] == i,
        loaded_order(None, n).len() == n,
        loaded_order(None, n)[i] == i,
{
    number_list_reads_back(list);
}

/// The list has a place for each page, in order, behind the blank place where there
/// is one; it shows at each place the page that is found there, and marks it where
/// it is bookmarked.
pub proof fn list_shows_each_page_at_its_place(m: ThumbnailsModel, i: int)
    requires
        is_permutation(m.order, m.order.len() as int),
        0 <= i < m.rows().len(),
    ensures
        m.rows().len() == m.order.len() + (if m.blank_head {
            1int
        } else {
            0
        }),
        m.blank_head && i == 0 ==> m.rows()[i].page is None && !m.rows()[i].bookmarked
            && m.page_at(i) == -1,
        !(m.blank_head && i == 0) ==> ({
            let page = m.order[if m.blank_head {
                i - 1
            } else {
                i
            }];
            &&& m.rows()[i].page == Some(page)
            &&& m.rows()[i].bookmarked == m.bookmarks.contains(page)
            &&& m.page_at(i) == page
            &&& m.index_of(page) == i
        }),
{
    if !(m.blank_head && i == 0) {
        let place = if m.blank_head {
            i - 1
        } else {
            i
        };
        lemma_index(m.order, m.order.len() as int, m.order[place], place);
    }
}

/// Outside the list there is no page.
pub proof fn no_page_stands_outside_the_list(m: ThumbnailsModel, i: int)
    requires
        i < 0 || i >= m.rows().len(),
    ensures
        m.page_at(i) == -1,
{
}

/// A move does something exactly where it is of a listed page, to the place of
/// another number that may be a page's.
pub proof fn listed_pages_can_be_moved(m: ThumbnailsModel, source: i32, target: i32)
    requires
        is_permutation(m.order, m.order.len() as int),
    ensures
        m.can_move(source, target) <==> m.order.contains(source) && source != target && target >= 0,
{
    lemma_position(m.order, source, 0);
    if m.order.contains(source) {
        assert(m.order[m.order.index_of(source)] == source);
    }
    if let Some(i) = position_of(m.order, source, 0) {
        assert(m.order[i] == source);
    }
}

/// A page that is not listed is looked for where its own number says, behind the blank
/// place where there is one.
pub proof fn unlisted_page_is_looked_for_by_its_number(m: ThumbnailsModel, page: i32)
    requires
        !m.order.contains(page),
    ensures
        m.index_of(page) == page + (if m.blank_head {
            1int
        } else {
            0
        }),
{
    lemma_position(m.order, page, 0);
}

} // verus!
