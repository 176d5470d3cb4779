use vstd::prelude::*;
use crate::filter::{is_active, passes_filter};
use crate::model::{
    messages_of, repo_views, text_of, texts_of, warnings_of, PullRequestNode, PullRequests,
    RepoInfo, RepoInfoView, Response, Variables,
};
use crate::year::{timestamp_year, year_of};

verus! {

/// Whether the repository of a merged pull request passes the filter policy for a
/// cutoff year. A repository without a readable push timestamp counts as pushed in
/// year zero.
pub open spec fn node_kept(node: PullRequestNode, cutoff_year: u16) -> bool {
    passes_filter(
        node.repository.is_private,
        node.repository.is_archived,
        node.repository.stars as int,
        year_of(node.repository.pushed_at),
        cutoff_year as int,
    )
}

/// The filter policy for a cutoff year as a predicate on merged pull requests.
pub open spec fn kept(cutoff_year: u16) -> spec_fn(PullRequestNode) -> bool {
    |node: PullRequestNode| node_kept(node, cutoff_year)
}

/// The contribution record of one merged pull request: the repository's name and
/// stars, the year of the merge (zero without a readable merge timestamp), and a
/// count of one.
pub open spec fn record_of(node: PullRequestNode) -> RepoInfoView {
    RepoInfoView {
        name: node.repository.name_with_owner@,
        stars: node.repository.stars as nat,
        year: year_of(node.merged_at) as nat,
        count: 1,
    }
}

/// The records that a page contributes: one for each pull request whose repository
/// passes the filter policy, in the order of the page.
pub open spec fn kept_records(nodes: Seq<PullRequestNode>, cutoff_year: u16) -> Seq<RepoInfoView> {
    nodes.filter(kept(cutoff_year)).map_values(|node: PullRequestNode| record_of(node))
}

proof fn lemma_kept_records_push(nodes: Seq<PullRequestNode>, node: PullRequestNode, cutoff_year: u16)
    ensures
        kept_records(nodes.push(node), cutoff_year) == if node_kept(node, cutoff_year) {
            kept_records(nodes, cutoff_year).push(record_of(node))
        } else {
            kept_records(nodes, cutoff_year)
        },
{
    nodes.lemma_filter_push(node, kept(cutoff_year));
}

proof fn lemma_repo_views_push(repos: Seq<RepoInfo>, repo: RepoInfo)
    ensures
        repo_views(repos.push(repo)) == repo_views(repos).push(repo@),
{
}

/// Applies the filter policy to every pull request of a page and appends a record
/// for each one that passes.
pub fn collect_page(nodes: &Vec<PullRequestNode>, cutoff_year: u16, repos: &mut Vec<RepoInfo>)
    ensures
        repo_views(final(repos)@) == repo_views(old(repos)@) + kept_records(nodes@, cutoff_year),
{
    let mut i: usize = 0;
    assert(kept_records(Seq::empty(), cutoff_year) =~= Seq::empty()) by {
        reveal(Seq::filter);
    }
    while i < nodes.len()
        invariant
            i <= nodes.len(),
            repo_views(repos@) == repo_views(old(repos)@) + kept_records(
                nodes@.take(i as int),
                cutoff_year,
            ),
        decreases nodes.len() - i,
    {
        let node = &nodes[i];
        let repository = &node.repository;
        let pushed_year = timestamp_year(&repository.pushed_at);
        proof {
            lemma_kept_records_push(nodes@.take(i as int), *node, cutoff_year);
            assert(nodes@.take(i + 1) =~= nodes@.take(i as int).push(*node));
        }
        if is_active(
            repository.is_private,
            repository.is_archived,
            repository.stars,
            pushed_year,
            cutoff_year,
        ) {
            let record = RepoInfo {
                name: repository.name_with_owner.clone(),
                stars: repository.stars,
                year: timestamp_year(&node.merged_at),
                count: 1,
            };
            proof {
                lemma_repo_views_push(repos@, record);
            }
            repos.push(record);
        }
        i += 1;
    }
    assert(nodes@.take(i as int) =~= nodes@);
}

/// The page of pull requests that a response carries: none where the envelope has no
/// data, or the data has no user.
pub open spec fn page_of(response: Response) -> Option<PullRequests> {
    match response.data {
        Some(data) => match data.user {
            Some(user) => Some(user.pull_requests),
            None => None,
        },
        None => None,
    }
}

/// The records that a response contributes for a cutoff year: those of its page, none
/// where it carries no page.
pub open spec fn response_records(response: Response, cutoff_year: u16) -> Seq<RepoInfoView> {
    match page_of(response) {
        Some(page) => kept_records(page.nodes@, cutoff_year),
        None => Seq::empty(),
    }
}

/// Whether a response carries a page that announces a successor.
pub open spec fn announces_next(response: Response) -> bool {
    match page_of(response) {
        Some(page) => page.page_info.has_next_page,
        None => false,
    }
}

/// The cursor at which the fetch goes on after a response: that of its page, where the
/// page announces a successor. A page that announces a successor and carries no cursor
/// ends the fetch, as does a response without a page.
pub open spec fn next_cursor(response: Response) -> Option<Seq<char>> {
    match page_of(response) {
        Some(page) => if page.page_info.has_next_page {
            text_of(page.page_info.end_cursor)
        } else {
            None
        },
        None => None,
    }
}

/// Whether the fetch goes on after a response.
pub open spec fn continues(response: Response) -> bool {
    next_cursor(response) is Some
}

/// The state of one paginated fetch of a user's merged pull requests: the cursor of
/// the page to ask for next, the records kept so far, and whether the last page has
/// been seen.
///
/// The caller drives it: while [`ContributionFetch::next_request`] hands out
/// variables, it performs the request and passes the decoded response to
/// [`ContributionFetch::absorb`].
#[derive(Debug)]
pub struct ContributionFetch {
    pub cursor: Option<String>,
    pub repos: Vec<RepoInfo>,
    pub finished: bool,
}

impl ContributionFetch {
    /// A fetch that has not asked for anything yet.
    pub fn new() -> (fetch: Self)
        ensures
            !fetch.finished,
            fetch.cursor is None,
            fetch.repos@ == Seq::<RepoInfo>::empty(),
    {
        ContributionFetch { cursor: None, repos: Vec::new(), finished: false }
    }

    /// The variables of the request to make next, or `None` once the fetch is over.
    pub fn next_request(&self, username: &str) -> (request: Option<Variables>)
        ensures
            self.finished <==> request is None,
            request matches Some(variables) ==> variables.username@ == username@ && text_of(
                variables.cursor,
            ) == text_of(self.cursor),
    {
        if self.finished {
            None
        } else {
            let cursor = match &self.cursor {
                Some(c) => Some(c.clone()),
                None => None,
            };
            Some(Variables { username: username.to_owned(), cursor })
        }
    }

    /// Takes in the response to the last request: keeps the records of its page that
    /// pass the filter policy, moves the cursor, and hands back the messages of the
    /// errors that the envelope carries, which are warnings and never end the fetch.
    ///
    /// The fetch is over after a response without a page, after a page that announces
    /// no successor, and after one that announces a successor without a cursor.
    pub fn absorb(&mut self, response: &Response, cutoff_year: u16) -> (warnings: Vec<String>)
        ensures
            texts_of(warnings@) == messages_of(response.errors),
            repo_views(final(self).repos@) == repo_views(old(self).repos@) + response_records(
                *response,
                cutoff_year,
            ),
            final(self).finished == !continues(*response),
            text_of(final(self).cursor) == next_cursor(*response),
    {
        let warnings = warnings_of(&response.errors);
        self.cursor = None;
        self.finished = true;
        match &response.data {
            Some(data) => match &data.user {
                Some(user) => {
                    let page = &user.pull_requests;
                    collect_page(&page.nodes, cutoff_year, &mut self.repos);
                    if page.page_info.has_next_page {
                        match &page.page_info.end_cursor {
                            Some(cursor) => {
                                self.cursor = Some(cursor.clone());
                                self.finished = false;
                            },
                            None => {},
                        }
                    }
                },
                None => {},
            },
            None => {},
        }
        warnings
    }

    /// The records kept so far.
    pub fn into_repos(self) -> (repos: Vec<RepoInfo>)
        ensures
            repos == self.repos,
    {
        self.repos
    }
}

/// The number of requests that a fetch makes when its responses are served from a
/// transcript, in order: one for each response up to the first after which the fetch
/// does not go on, and no more than the transcript holds.
pub open spec fn requests_made(pages: Seq<Response>) -> nat
    decreases pages.len(),
{
    if pages.len() == 0 {
        0
    } else if continues(pages[0]) {
        1 + requests_made(pages.drop_first())
    } else {
        1
    }
}

/// The records that a fetch keeps when its responses are served from a transcript:
/// those of each response that it asks for, in order.
pub open spec fn fetched_records(pages: Seq<Response>, cutoff_year: u16) -> Seq<RepoInfoView>
    decreases pages.len(),
{
    if pages.len() == 0 {
        Seq::empty()
    } else if continues(pages[0]) {
        response_records(pages[0], cutoff_year) + fetched_records(pages.drop_first(), cutoff_year)
    } else {
        response_records(pages[0], cutoff_year)
    }
}

/// The warnings that a fetch reports when its responses are served from a transcript:
/// the error messages of each response that it asks for, in order.
pub open spec fn fetched_warnings(pages: Seq<Response>) -> Seq<Seq<char>>
    decreases pages.len(),
{
    if pages.len() == 0 {
        Seq::empty()
    } else if continues(pages[0]) {
        messages_of(pages[0].errors) + fetched_warnings(pages.drop_first())
    } else {
        messages_of(pages[0].errors)
    }
}

/// The number of responses of a transcript that announce a next page.
pub open spec fn announcing(pages: Seq<Response>) -> nat
    decreases pages.len(),
{
    if pages.len() == 0 {
        0
    } else if announces_next(pages[0]) {
        1 + announcing(pages.drop_first())
    } else {
        announcing(pages.drop_first())
    }
}

/// A fetch never makes more requests than the transcript holds responses, nor more
/// than one request beyond the responses that announce a next page.
pub proof fn lemma_requests_bounded(pages: Seq<Response>)
    ensures
        requests_made(pages) <= pages.len(),
        requests_made(pages) <= announcing(pages) + 1,
    decreases pages.len(),
{
    if pages.len() > 0 {
        lemma_requests_bounded(pages.drop_first());
    }
}

proof fn lemma_none_announcing(pages: Seq<Response>)
    requires
        forall|i: int| 0 <= i < pages.len() ==> !announces_next(#[trigger] pages[i]),
    ensures
        announcing(pages) == 0,
    decreases pages.len(),
{
    if pages.len() > 0 {
        let rest = pages.drop_first();
        assert forall|i: int| 0 <= i < rest.len() implies !announces_next(#[trigger] rest[i]) by {
            assert(rest[i] == pages[i + 1]);
        }
        lemma_none_announcing(rest);
    }
}

/// Pagination ends after one request for each page that announces a successor, and
/// one more for the page that ends it. This holds of every transcript in which some
/// response announces no next page, every response that announces one carries a
/// cursor, and no response announces one after a response that announced none.
pub proof fn lemma_requests_exact(pages: Seq<Response>)
    requires
        exists|k: int| 0 <= k < pages.len() && !announces_next(#[trigger] pages[k]),
        forall|i: int|
            0 <= i < pages.len() && announces_next(#[trigger] pages[i]) ==> continues(pages[i]),
        forall|i: int, j: int|
            0 <= i < j < pages.len() && !announces_next(#[trigger] pages[i]) ==> !announces_next(
                #[trigger] pages[j],
            ),
    ensures
        requests_made(pages) == announcing(pages) + 1,
    decreases pages.len(),
{
    let rest = pages.drop_first();
    assert forall|i: int| 0 <= i < rest.len() implies rest[i] == pages[i + 1] by {}
    if continues(pages[0]) {
        let k = choose|k: int| 0 <= k < pages.len() && !announces_next(#[trigger] pages[k]);
        assert(!announces_next(rest[k - 1]));
        assert forall|i: int| 0 <= i < rest.len() && announces_next(#[trigger] rest[i])
            implies continues(rest[i]) by {
            assert(rest[i] == pages[i + 1]);
        }
        assert forall|i: int, j: int|
            0 <= i < j < rest.len() && !announces_next(#[trigger] rest[i])
            implies !announces_next(#[trigger] rest[j]) by {
            assert(rest[i] == pages[i + 1]);
            assert(rest[j] == pages[j + 1]);
        }
        lemma_requests_exact(rest);
    } else {
        assert forall|i: int| 0 <= i < rest.len() implies !announces_next(#[trigger] rest[i]) by {
            assert(rest[i] == pages[i + 1]);
        }
        lemma_none_announcing(rest);
    }
}

/// What a fetch over a transcript of responses comes to: the records kept, the
/// warnings reported, and the number of requests made.
#[derive(Debug)]
pub struct Fetched {
    pub repos: Vec<RepoInfo>,
    pub warnings: Vec<String>,
    pub requests: usize,
}

/// Runs the paginated fetch of a user's merged pull requests against a transcript of
/// decoded responses, served in order: the first response answers the first request,
/// and the fetch asks for the next one as long as the last page announced a successor
/// and carried a cursor.
pub fn fetch_repos(pages: &Vec<Response>, cutoff_year: u16) -> (fetched: Fetched)
    ensures
        repo_views(fetched.repos@) == fetched_records(pages@, cutoff_year),
        texts_of(fetched.warnings@) == fetched_warnings(pages@),
        fetched.requests == requests_made(pages@),
        fetched.requests <= pages.len(),
        fetched.requests <= announcing(pages@) + 1,
{
    let mut fetch = ContributionFetch::new();
    let mut warnings: Vec<String> = Vec::new();
    let mut requests: usize = 0;
    proof {
        assert(pages@.skip(0) =~= pages@);
    }
    while requests < pages.len() && !fetch.finished
        invariant
            requests <= pages.len(),
            fetch.finished ==> requests_made(pages@) == requests,
            fetch.finished ==> fetched_records(pages@, cutoff_year) == repo_views(fetch.repos@),
            fetch.finished ==> fetched_warnings(pages@) == texts_of(warnings@),
            !fetch.finished ==> requests_made(pages@) == requests + requests_made(
                pages@.skip(requests as int),
            ),
            !fetch.finished ==> fetched_records(pages@, cutoff_year) == repo_views(fetch.repos@)
                + fetched_records(pages@.skip(requests as int), cutoff_year),
            !fetch.finished ==> fetched_warnings(pages@) == texts_of(warnings@) + fetched_warnings(
                pages@.skip(requests as int),
            ),
        decreases pages.len() - requests,
    {
        let ghost rest = pages@.skip(requests as int);
        let mut reported = fetch.absorb(&pages[requests], cutoff_year);
        proof {
            assert(rest.drop_first() =~= pages@.skip(requests + 1));
            lemma_texts_of_add(warnings@, reported@);
        }
        warnings.append(&mut reported);
        requests += 1;
    }
    proof {
        lemma_requests_bounded(pages@);
    }
    Fetched { repos: fetch.into_repos(), warnings, requests }
}

proof fn lemma_texts_of_add(a: Seq<String>, b: Seq<String>)
    ensures
        texts_of(a + b) == texts_of(a) + texts_of(b),
{
}

} // verus!
