//! Following next-page links until the last page, one page at a time.
//!
//! The caller performs each request; the paginator decides what to fetch next
//! and what the fetch finally yields.
use vstd::prelude::*;
use crate::gh::GithubApiError;
use crate::link::{next_link, next_link_spec};

verus! {

/// One fetched page: its items and its link header, if it had one.
pub struct Page<T> {
    pub items: Vec<T>,
    pub link: Option<String>,
}

/// A paginated fetch in progress: the items gathered so far and the URL to
/// fetch next.
pub struct Paginator<T> {
    pub items: Vec<T>,
    pub url: String,
}

/// What follows a page: another request, or the end of the fetch.
pub enum Progress<T> {
    Next(Paginator<T>),
    Finished(Result<Vec<T>, GithubApiError>),
}

/// The next-page URL of a page with this link header.
pub open spec fn page_next(link: Option<Seq<char>>) -> Option<Seq<char>> {
    match link {
        Some(h) => next_link_spec(h),
        None => None,
    }
}

/// Items gathered and fetches made when pages `pages` arrive in turn after
/// `acc` was gathered; the result is `None` while a next page is still owed.
pub open spec fn drive<T>(acc: Seq<T>, pages: Seq<(Seq<T>, Option<Seq<char>>)>) -> (Option<Seq<T>>, nat)
    decreases pages.len(),
{
    if pages.len() == 0 {
        (None, 0)
    } else {
        let acc2 = acc + pages[0].0;
        match page_next(pages[0].1) {
            None => (Some(acc2), 1),
            Some(_) => {
                let rest = drive(acc2, pages.drop_first());
                (rest.0, rest.1 + 1)
            },
        }
    }
}

/// The items of all pages, in page order.
pub open spec fn concat_items<T>(pages: Seq<(Seq<T>, Option<Seq<char>>)>) -> Seq<T>
    decreases pages.len(),
{
    if pages.len() == 0 {
        Seq::empty()
    } else {
        pages[0].0 + concat_items(pages.drop_first())
    }
}

impl<T> Paginator<T> {
    /// Starts a fetch at `seed` with nothing gathered.
    pub fn start(seed: String) -> (r: Self)
        ensures
            r.items@ == Seq::<T>::empty(),
            r.url == seed,
    {
        Paginator { items: Vec::new(), url: seed }
    }

    /// Takes the outcome of fetching `self.url`. An error ends the fetch and
    /// drops what was gathered; a page adds its items in order, then either
    /// names the next URL or ends the fetch with everything gathered.
    pub fn advance(self, page: Result<Page<T>, GithubApiError>) -> (r: Progress<T>)
        ensures
            match page {
                Err(e) => r == Progress::<T>::Finished(Err(e)),
                Ok(p) => {
                    let gathered = self.items@ + p.items@;
                    let next = page_next(
                        match p.link {
                            Some(h) => Some(h@),
                            None => None,
                        },
                    );
                    match r {
                        Progress::Next(q) => next == Some(q.url@) && q.items@ == gathered,
                        Progress::Finished(Ok(v)) => next.is_none() && v@ == gathered,
                        Progress::Finished(Err(_)) => false,
                    }
                },
            },
    {
        match page {
            Err(e) => Progress::Finished(Err(e)),
            Ok(p) => {
                let Page { items: mut more, link } = p;
                let mut items = self.items;
                items.append(&mut more);
                let next = match link {
                    Some(h) => next_link(h.as_str()),
                    None => None,
                };
                match next {
                    Some(u) => Progress::Next(Paginator { items, url: u }),
                    None => Progress::Finished(Ok(items)),
                }
            },
        }
    }
}

proof fn lemma_drive_gathers<T>(acc: Seq<T>, pages: Seq<(Seq<T>, Option<Seq<char>>)>)
    requires
        pages.len() >= 1,
        forall|i: int| 0 <= i < pages.len() - 1 ==> (#[trigger] page_next(pages[i].1)).is_some(),
        page_next(pages.last().1).is_none(),
    ensures
        drive(acc, pages) == (Some(acc + concat_items(pages)), pages.len()),
    decreases pages.len(),
{
    if pages.len() == 1 {
        assert(pages.drop_first() =~= Seq::<(Seq<T>, Option<Seq<char>>)>::empty());
        assert(concat_items(pages) =~= pages[0].0);
    } else {
        let rest = pages.drop_first();
        assert(page_next(pages[0].1).is_some());
        assert forall|i: int| 0 <= i < rest.len() - 1 implies (#[trigger] page_next(rest[i].1)).is_some() by {
            assert(rest[i] == pages[i + 1]);
            assert(page_next(pages[i + 1].1).is_some());
        }
        assert(rest.last() == pages.last());
        lemma_drive_gathers(acc + pages[0].0, rest);
        assert(acc + pages[0].0 + concat_items(rest) =~= acc + concat_items(pages));
    }
}

/// A fetch over N >= 1 pages, each but the last naming a next page and the
/// last naming none, ends after exactly N fetches with all pages' items
/// concatenated in page order.
pub proof fn lemma_pagination_concatenates<T>(pages: Seq<(Seq<T>, Option<Seq<char>>)>)
    requires
        pages.len() >= 1,
        forall|i: int| 0 <= i < pages.len() - 1 ==> (#[trigger] page_next(pages[i].1)).is_some(),
        page_next(pages.last().1).is_none(),
    ensures
        drive(Seq::<T>::empty(), pages) == (Some(concat_items(pages)), pages.len()),
{
    lemma_drive_gathers(Seq::<T>::empty(), pages);
    assert(Seq::<T>::empty() + concat_items(pages) =~= concat_items(pages));
}

/// A first page without a link header ends the fetch after that one fetch,
/// whatever else would have come.
pub proof fn lemma_no_link_single_fetch<T>(
    items: Seq<T>,
    rest: Seq<(Seq<T>, Option<Seq<char>>)>,
)
    ensures
        drive(Seq::<T>::empty(), seq![(items, None::<Seq<char>>)] + rest) == (Some(items), 1nat),
{
    let pages = seq![(items, None::<Seq<char>>)] + rest;
    assert(pages[0] == (items, None::<Seq<char>>));
    assert(Seq::<T>::empty() + items =~= items);
}

} // verus!
