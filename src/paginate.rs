//! Cursor-based pagination: the state of one listing, from the first request
//! to the page that returns no cursor.
use vstd::prelude::*;

verus! {

/// The view of an optional string.
pub open spec fn opt_view(o: Option<String>) -> Option<Seq<char>> {
    match o {
        Some(s) => Some(s@),
        None => None,
    }
}

/// The state of a listing: what it has gathered, the cursor of its next
/// request, and whether the last page has come.
pub ghost struct ListingState<T> {
    pub items: Seq<T>,
    pub cursor: Option<Seq<char>>,
    pub done: bool,
}

/// A listing before its first request: nothing gathered, no cursor.
pub open spec fn initial_listing<T>() -> ListingState<T> {
    ListingState { items: seq![], cursor: None, done: false }
}

/// A listing after one more page: its items are appended, the returned
/// cursor is the next request's, and an absent cursor ends the listing.
pub open spec fn after_page<T>(s: ListingState<T>, page: Seq<T>, next: Option<Seq<char>>) -> ListingState<T> {
    ListingState { items: s.items + page, cursor: next, done: next is None }
}

/// A listing after the given responses, each a page and its returned cursor.
pub open spec fn after_pages<T>(responses: Seq<(Seq<T>, Option<Seq<char>>)>) -> ListingState<T>
    decreases responses.len(),
{
    if responses.len() == 0 {
        initial_listing()
    } else {
        after_page(after_pages(responses.drop_last()), responses.last().0, responses.last().1)
    }
}

/// The items of all the pages, one page after the other.
pub open spec fn all_items<T>(responses: Seq<(Seq<T>, Option<Seq<char>>)>) -> Seq<T>
    decreases responses.len(),
{
    if responses.len() == 0 {
        seq![]
    } else {
        all_items(responses.drop_last()) + responses.last().0
    }
}

/// A cursor chain that ends: every response but the last returns a cursor.
pub open spec fn chain_ends_at_last<T>(responses: Seq<(Seq<T>, Option<Seq<char>>)>) -> bool {
    &&& responses.len() > 0
    &&& responses.last().1 is None
    &&& forall|i: int| 0 <= i < responses.len() - 1 ==> (#[trigger] responses[i]).1 is Some
}

/// One cursor-paginated listing. Each request uses the cursor that the
/// previous page returned; the page that returns none is the last.
pub struct Paginator<T> {
    items: Vec<T>,
    cursor: Option<String>,
    done: bool,
}

impl<T> View for Paginator<T> {
    type V = ListingState<T>;

    closed spec fn view(&self) -> ListingState<T> {
        ListingState { items: self.items@, cursor: opt_view(self.cursor), done: self.done }
    }
}

impl<T> Paginator<T> {
    /// A listing that has made no request yet.
    pub fn new() -> (p: Self)
        ensures
            p@ == initial_listing::<T>(),
    {
        Paginator { items: Vec::new(), cursor: None, done: false }
    }

    /// The cursor to send with the next request, or `None` once the last
    /// page has come.
    pub fn next_request(&self) -> (r: Option<Option<String>>)
        ensures
            r is None <==> self@.done,
            r is Some ==> opt_view(r->0) == self@.cursor,
    {
        if self.done {
            None
        } else {
            Some(self.cursor.clone())
        }
    }

    /// Whether the last page has come.
    pub fn is_done(&self) -> (r: bool)
        ensures
            r == self@.done,
    {
        self.done
    }

    /// Takes in one page and the cursor it returned.
    pub fn receive(&mut self, page: Vec<T>, next: Option<String>)
        requires
            !old(self)@.done,
        ensures
            final(self)@ == after_page(old(self)@, page@, opt_view(next)),
    {
        let mut page = page;
        self.items.append(&mut page);
        self.done = next.is_none();
        self.cursor = next;
    }

    /// What the listing has gathered, page after page.
    pub fn into_items(self) -> (r: Vec<T>)
        ensures
            r@ == self@.items,
    {
        self.items
    }
}

/// The items of a page whose list may be absent; absent means empty.
pub fn page_items<T>(page: Option<Vec<T>>) -> (r: Vec<T>)
    ensures
        r@ == match page {
            Some(v) => v@,
            None => Seq::<T>::empty(),
        },
{
    match page {
        Some(v) => v,
        None => Vec::new(),
    }
}

/// The services of a listed page that call for a batched describe: none
/// when the page is absent or empty.
pub fn services_to_resolve(page: Option<Vec<String>>) -> (r: Option<Vec<String>>)
    ensures
        r is Some <==> (page is Some && page->0@.len() > 0),
        r is Some ==> r->0@ == page->0@,
{
    match page {
        Some(v) => if v.len() > 0 {
            Some(v)
        } else {
            None
        },
        None => None,
    }
}

/// A listing that is fed pages whose cursor chain ends gathers the items of
/// every page, in order, and ends after the last page and not before; each
/// request after the first carries the cursor of the page before it.
pub proof fn lemma_listing_gathers_all_pages<T>(responses: Seq<(Seq<T>, Option<Seq<char>>)>)
    requires
        chain_ends_at_last(responses),
    ensures
        after_pages(responses).done,
        after_pages(responses).items == all_items(responses),
        forall|k: int|
            0 <= k < responses.len() - 1 ==> !(#[trigger] after_pages(responses.take(k + 1))).done
                && after_pages(responses.take(k + 1)).cursor == responses[k].1,
{
    lemma_items_are_all_items(responses);
    assert forall|k: int| 0 <= k < responses.len() - 1 implies !(#[trigger] after_pages(
        responses.take(k + 1),
    )).done && after_pages(responses.take(k + 1)).cursor == responses[k].1 by {
        assert(responses.take(k + 1).last() == responses[k]);
        assert(responses[k].1 is Some);
    }
}

proof fn lemma_items_are_all_items<T>(responses: Seq<(Seq<T>, Option<Seq<char>>)>)
    ensures
        after_pages(responses).items == all_items(responses),
    decreases responses.len(),
{
    if responses.len() > 0 {
        lemma_items_are_all_items(responses.drop_last());
    }
}

} // verus!
