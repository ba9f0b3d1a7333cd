//! Cursor-based page navigation for paginated responses.
//!
//! Pagination-capable responses carry a `_metadata.links` object with
//! absolute URLs of the adjacent pages. This module extracts those links,
//! re-derives the dispatcher's internal path convention from a link (the
//! leading API-version segment `/v2` is stripped), and drives single-step
//! and streaming iteration over pages.

use vstd::prelude::*;

use crate::error::Error;

verus! {

/// What `url::Url::parse` splits an absolute URL into, as far as this
/// module reads it: the URL's path and its decoded query pairs, or nothing
/// when the string is not a valid absolute URL.
pub uninterp spec fn url_parts_of(url: Seq<char>) -> Option<
    (Seq<char>, Seq<(Seq<char>, Seq<char>)>),
>;

/// Relies on `url::Url::parse`, `Url::path` and `Url::query_pairs`: whether
/// a string parses as an absolute URL, its path, and its decoded query
/// pairs depend on the string alone. A parse failure hands back the
/// parser's message.
#[verifier::external_body]
fn split_url(url: &str) -> (r: Result<(String, Vec<(String, String)>), String>)
    ensures
        match r {
            Ok(pq) => (url_parts_of(url@) matches Some(v) && v.0 == pq.0@ && v.1
                == pq.1.deep_view()),
            Err(_) => url_parts_of(url@) is None,
        },
{
    let parsed = url::Url::parse(url).map_err(|e| e.to_string())?;
    let path = parsed.path().to_owned();
    let params = parsed.query_pairs().map(|(k, v)| (k.into_owned(), v.into_owned())).collect();
    Ok((path, params))
}

/// What `serde_json` finds under `_metadata.links` in a JSON body: the
/// `next` and `prev` link strings, or nothing when the body is not JSON or
/// has no `_metadata` member.
pub uninterp spec fn metadata_of(body: Seq<char>) -> Option<
    (Option<Seq<char>>, Option<Seq<char>>),
>;

/// Relies on `serde_json::from_str` and `serde_json::Value::{get, as_str}`:
/// the `_metadata.links` member of a JSON body depends on the body text
/// alone.
#[verifier::external_body]
fn extract_metadata(body: &str) -> (r: Option<PaginationMetadata>)
    ensures
        match r {
            Some(m) => (metadata_of(body@) matches Some(nm) && m.links.next.deep_view() == nm.0
                && m.links.previous.deep_view() == nm.1),
            None => metadata_of(body@) is None,
        },
{
    let v: serde_json::Value = serde_json::from_str(body).ok()?;
    let m = v.get("_metadata")?;
    let links = m.get("links");
    let next = links.and_then(|l| l.get("next")).and_then(|n| n.as_str()).map(|s| s.to_owned());
    let previous = links.and_then(|l| l.get("prev")).and_then(|p| p.as_str()).map(|s| s.to_owned());
    Some(PaginationMetadata { links: PaginationLinks { next, previous } })
}

/// The `_metadata.links` member of a response body, if any.
///
/// Absence of `_metadata` (or a body that is not JSON) means the response
/// is not pagination-capable: no metadata, hence a terminal page.
pub fn parse_metadata(body: &str) -> (r: Option<PaginationMetadata>)
    ensures
        match r {
            Some(m) => (metadata_of(body@) matches Some(nm) && m.links.next.deep_view() == nm.0
                && m.links.previous.deep_view() == nm.1),
            None => metadata_of(body@) is None,
        },
{
    extract_metadata(body)
}

/// Pagination metadata of a response.
#[derive(Debug, Clone)]
pub struct PaginationMetadata {
    /// Pagination links.
    pub links: PaginationLinks,
}

/// Pagination navigation links; absence of both means a terminal page.
#[derive(Debug, Clone)]
pub struct PaginationLinks {
    /// URL of the next page (if any).
    pub next: Option<String>,
    /// URL of the previous page (if any).
    pub previous: Option<String>,
}

impl Default for PaginationLinks {
    fn default() -> (r: Self)
        ensures
            r.next is None,
            r.previous is None,
    {
        PaginationLinks { next: None, previous: None }
    }
}

/// `path` without a leading `/v2` segment, the dispatcher's internal path
/// convention.
pub open spec fn strip_v2(path: Seq<char>) -> Seq<char> {
    if path.len() >= 3 && path[0] == '/' && path[1] == 'v' && path[2] == '2' {
        path.skip(3)
    } else {
        path
    }
}

/// Parse a pagination link into the dispatcher's path and query parameters.
///
/// The URL's path loses its leading `/v2` segment, and the query pairs are
/// handed back decoded. A string that is not a valid absolute URL fails
/// with `Request` carrying an `Invalid pagination URL` message.
pub fn parse_pagination_url(url: &str) -> (r: Result<(String, Vec<(String, String)>), Error>)
    ensures
        match url_parts_of(url@) {
            Some(pq) => (r matches Ok(out) && out.0@ == strip_v2(pq.0) && out.1.deep_view()
                == pq.1),
            None => (r matches Err(e) && e matches Error::Request(m) && "Invalid pagination URL: "@
                =~= m@.take(24)),
        },
{
    proof {
        reveal_strlit("Invalid pagination URL: ");
    }
    match split_url(url) {
        Ok(pq) => {
            let (path, params) = pq;
            let n = path.as_str().unicode_len();
            let stripped = if n >= 3 && path.as_str().get_char(0) == '/' && path.as_str().get_char(
                1,
            ) == 'v' && path.as_str().get_char(2) == '2' {
                String::from_str(path.as_str().substring_char(3, n))
            } else {
                path
            };
            proof {
                assert(stripped@ =~= strip_v2(url_parts_of(url@)->Some_0.0));
            }
            Ok((stripped, params))
        },
        Err(detail) => {
            let mut m = String::from_str("Invalid pagination URL: ");
            m.append(detail.as_str());
            proof {
                assert(m@.take(24) =~= "Invalid pagination URL: "@);
            }
            Err(Error::Request(m))
        },
    }
}

/// A paginated API response with navigation bookkeeping.
///
/// Holds the response data for one page plus the links extracted from its
/// metadata. Navigation produces the request (path and query parameters)
/// for an adjacent page; issuing that request and decoding its body is the
/// embedding application's part.
#[derive(Debug)]
pub struct PaginatedResponse<T> {
    /// The response data for this page.
    pub data: T,
    /// Pagination metadata (if present).
    metadata: Option<PaginationMetadata>,
    /// URL of the next page, if any.
    next_url: Option<String>,
    /// URL of the previous page, if any.
    prev_url: Option<String>,
}

impl<T> PaginatedResponse<T> {
    /// The response data of this page.
    pub closed spec fn spec_data(self) -> T {
        self.data
    }

    /// The next-page URL the response carries.
    pub closed spec fn spec_next_url(self) -> Option<Seq<char>> {
        self.next_url.deep_view()
    }

    /// The previous-page URL the response carries.
    pub closed spec fn spec_prev_url(self) -> Option<Seq<char>> {
        self.prev_url.deep_view()
    }

    /// Create a `PaginatedResponse` from response data and its metadata:
    /// the navigation URLs are the metadata's links, absent links (or
    /// absent metadata) meaning a terminal page.
    pub fn new(data: T, metadata: Option<PaginationMetadata>) -> (r: Self)
        ensures
            r.spec_next_url() == match metadata {
                Some(m) => m.links.next.deep_view(),
                None => None::<Seq<char>>,
            },
            r.spec_prev_url() == match metadata {
                Some(m) => m.links.previous.deep_view(),
                None => None::<Seq<char>>,
            },
            r.spec_data() == data,
    {
        let (next_url, prev_url) = match &metadata {
            Some(m) => {
                let next = match &m.links.next {
                    Some(u) => Some(u.clone()),
                    None => None,
                };
                let prev = match &m.links.previous {
                    Some(u) => Some(u.clone()),
                    None => None,
                };
                (next, prev)
            },
            None => (None, None),
        };
        PaginatedResponse { data, metadata, next_url, prev_url }
    }

    /// Returns true if there is a next page available.
    pub fn has_next(&self) -> (b: bool)
        ensures
            b == (self.spec_next_url() is Some),
    {
        self.next_url.is_some()
    }

    /// Returns true if there is a previous page available.
    pub fn has_prev(&self) -> (b: bool)
        ensures
            b == (self.spec_prev_url() is Some),
    {
        self.prev_url.is_some()
    }

    /// Alias for `has_next`.
    pub fn has_next_page(&self) -> (b: bool)
        ensures
            b == (self.spec_next_url() is Some),
    {
        self.has_next()
    }

    /// Alias for `has_prev`.
    pub fn has_previous_page(&self) -> (b: bool)
        ensures
            b == (self.spec_prev_url() is Some),
    {
        self.has_prev()
    }

    /// The next page URL if available.
    pub fn next_url(&self) -> (r: Option<&str>)
        ensures
            match r {
                Some(u) => self.spec_next_url() == Some(u@),
                None => self.spec_next_url() is None,
            },
    {
        match &self.next_url {
            Some(u) => Some(u.as_str()),
            None => None,
        }
    }

    /// The previous page URL if available.
    pub fn prev_url(&self) -> (r: Option<&str>)
        ensures
            match r {
                Some(u) => self.spec_prev_url() == Some(u@),
                None => self.spec_prev_url() is None,
            },
    {
        match &self.prev_url {
            Some(u) => Some(u.as_str()),
            None => None,
        }
    }

    /// The request that fetches the next page: its path and query
    /// parameters, `None` when this is the last page, or an error when the
    /// link cannot be parsed.
    pub fn next_request(&self) -> (r: Result<Option<(String, Vec<(String, String)>)>, Error>)
        ensures
            self.spec_next_url() is None ==> (r matches Ok(o) && o is None),
            self.spec_next_url() matches Some(u) ==> match url_parts_of(u) {
                Some(pq) => (r matches Ok(o) && o matches Some(out) && out.0@ == strip_v2(pq.0)
                    && out.1.deep_view() == pq.1),
                None => r is Err,
            },
    {
        match &self.next_url {
            Some(u) => match parse_pagination_url(u.as_str()) {
                Ok(out) => Ok(Some(out)),
                Err(e) => Err(e),
            },
            None => Ok(None),
        }
    }

    /// The request that fetches the previous page: its path and query
    /// parameters, `None` when this is the first page, or an error when the
    /// link cannot be parsed.
    pub fn prev_request(&self) -> (r: Result<Option<(String, Vec<(String, String)>)>, Error>)
        ensures
            self.spec_prev_url() is None ==> (r matches Ok(o) && o is None),
            self.spec_prev_url() matches Some(u) ==> match url_parts_of(u) {
                Some(pq) => (r matches Ok(o) && o matches Some(out) && out.0@ == strip_v2(pq.0)
                    && out.1.deep_view() == pq.1),
                None => r is Err,
            },
    {
        match &self.prev_url {
            Some(u) => match parse_pagination_url(u.as_str()) {
                Ok(out) => Ok(Some(out)),
                Err(e) => Err(e),
            },
            None => Ok(None),
        }
    }

    /// Start streaming iteration at this page.
    pub fn pages(self) -> (r: PageStream<T>)
        ensures
            r.spec_current() == Some(self),
            !r.spec_done(),
    {
        PageStream { current: Some(self), done: false }
    }
}

/// Streaming iteration over pages, driven by the embedding application.
///
/// One step has two halves: `begin_next_page` hands out the page to fetch
/// from, the application fetches its successor, and `resume_next_page`
/// records the outcome and yields the page. Iteration yields every page up
/// to and including the first whose next link is absent, and ends with the
/// error of a failed fetch, after which nothing more is yielded.
#[derive(Debug)]
pub struct PageStream<T> {
    current: Option<PaginatedResponse<T>>,
    done: bool,
}

impl<T> PageStream<T> {
    /// The page the stream stands on, not yet yielded.
    pub closed spec fn spec_current(self) -> Option<PaginatedResponse<T>> {
        self.current
    }

    /// Whether iteration has ended.
    pub closed spec fn spec_done(self) -> bool {
        self.done
    }

    /// First half of one streaming step: take the page to be yielded.
    ///
    /// `None` means the stream is exhausted. Otherwise the caller fetches
    /// that page's successor and hands both to `resume_next_page`.
    pub fn begin_next_page(&mut self) -> (r: Option<PaginatedResponse<T>>)
        ensures
            match r {
                Some(page) => {
                    &&& !old(self).spec_done()
                    &&& old(self).spec_current() == Some(page)
                    &&& final(self).spec_current() is None
                    &&& final(self).spec_done() == old(self).spec_done()
                },
                None => {
                    &&& *final(self) == *old(self)
                    &&& (old(self).spec_done() || old(self).spec_current() is None)
                },
            },
    {
        if self.done {
            return None;
        }
        self.current.take()
    }

    /// Second half of one streaming step: record the fetch outcome and
    /// yield the page taken by `begin_next_page`.
    ///
    /// A fetched successor becomes the new current page; no successor ends
    /// the stream after yielding `page`; a fetch error ends the stream and
    /// is yielded in place of the page.
    pub fn resume_next_page(
        &mut self,
        page: PaginatedResponse<T>,
        fetched: Result<Option<PaginatedResponse<T>>, Error>,
    ) -> (r: Result<PaginatedResponse<T>, Error>)
        ensures
            match fetched {
                Ok(next) => match next {
                    Some(next_page) => {
                        &&& final(self).spec_current() == Some(next_page)
                        &&& final(self).spec_done() == old(self).spec_done()
                        &&& (r matches Ok(p) && p == page)
                    },
                    None => {
                        &&& final(self).spec_current() is None
                        &&& final(self).spec_done()
                        &&& (r matches Ok(p) && p == page)
                    },
                },
                Err(e) => {
                    &&& final(self).spec_current() is None
                    &&& final(self).spec_done()
                    &&& (r matches Err(e2) && e2 == e)
                },
            },
    {
        match fetched {
            Ok(Some(next_page)) => {
                self.current = Some(next_page);
                Ok(page)
            },
            Ok(None) => {
                self.current = None;
                self.done = true;
                Ok(page)
            },
            Err(e) => {
                self.current = None;
                self.done = true;
                Err(e)
            },
        }
    }
}

} // verus!
