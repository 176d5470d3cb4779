use vstd::prelude::*;
use crate::aggregate::{aggregate, aggregated};
use crate::labels::{format_stars, pr_label, pr_label_text, repo_url, star_label, url_text};
use crate::model::{
    active_views, repo_views, text_of, ActiveRepo, ActiveRepoView, RepoInfo, RepoInfoView,
};
use crate::order::stable_sorted;
use crate::rank::{contribution_order, name_order, rank_active, rank_contributions};

verus! {

/// One line of the contribution list as it is shown: the repository's name and
/// address, its star label, its pull request label and the year of the latest
/// contribution.
#[derive(Clone, Debug, PartialEq, Eq)]
pub struct ContributionDisplay {
    pub name: String,
    pub url: String,
    pub stars: String,
    pub pr_label: String,
    pub year: u16,
}

/// What a [`ContributionDisplay`] holds, as mathematical values.
pub struct ContributionDisplayView {
    pub name: Seq<char>,
    pub url: Seq<char>,
    pub stars: Seq<char>,
    pub pr_label: Seq<char>,
    pub year: nat,
}

impl View for ContributionDisplay {
    type V = ContributionDisplayView;

    open spec fn view(&self) -> ContributionDisplayView {
        ContributionDisplayView {
            name: self.name@,
            url: self.url@,
            stars: self.stars@,
            pr_label: self.pr_label@,
            year: self.year as nat,
        }
    }
}

/// One line of the list of owned repositories as it is shown.
#[derive(Clone, Debug, PartialEq, Eq)]
pub struct ActiveRepoDisplay {
    pub name: String,
    pub url: String,
    pub stars: String,
    pub description: Option<String>,
}

/// What an [`ActiveRepoDisplay`] holds, as mathematical values.
pub struct ActiveRepoDisplayView {
    pub name: Seq<char>,
    pub url: Seq<char>,
    pub stars: Seq<char>,
    pub description: Option<Seq<char>>,
}

impl View for ActiveRepoDisplay {
    type V = ActiveRepoDisplayView;

    open spec fn view(&self) -> ActiveRepoDisplayView {
        ActiveRepoDisplayView {
            name: self.name@,
            url: self.url@,
            stars: self.stars@,
            description: text_of(self.description),
        }
    }
}

/// The two lists that are handed to the renderer.
#[derive(Clone, Debug, PartialEq, Eq)]
pub struct TemplateContext {
    pub active_repos: Vec<ActiveRepoDisplay>,
    pub contributions: Vec<ContributionDisplay>,
}

/// How a contribution entry is shown.
pub open spec fn shown_contribution(entry: RepoInfoView) -> ContributionDisplayView {
    ContributionDisplayView {
        name: entry.name,
        url: url_text(entry.name),
        stars: star_label(entry.stars),
        pr_label: pr_label_text(entry.count),
        year: entry.year,
    }
}

/// How an owned repository is shown.
pub open spec fn shown_active(repo: ActiveRepoView) -> ActiveRepoDisplayView {
    ActiveRepoDisplayView {
        name: repo.name,
        url: repo.url,
        stars: star_label(repo.stars),
        description: repo.description,
    }
}

/// How a list of contribution entries is shown: each entry in its place.
pub open spec fn shown_contributions(entries: Seq<RepoInfoView>) -> Seq<ContributionDisplayView> {
    entries.map_values(|entry: RepoInfoView| shown_contribution(entry))
}

/// How a list of owned repositories is shown: each repository in its place.
pub open spec fn shown_actives(repos: Seq<ActiveRepoView>) -> Seq<ActiveRepoDisplayView> {
    repos.map_values(|repo: ActiveRepoView| shown_active(repo))
}

/// The views of a list of contribution lines, in the same order.
pub open spec fn contribution_display_views(lines: Seq<ContributionDisplay>) -> Seq<
    ContributionDisplayView,
> {
    lines.map_values(|line: ContributionDisplay| line@)
}

/// The views of a list of lines of owned repositories, in the same order.
pub open spec fn active_display_views(lines: Seq<ActiveRepoDisplay>) -> Seq<
    ActiveRepoDisplayView,
> {
    lines.map_values(|line: ActiveRepoDisplay| line@)
}

/// Derives the line that shows a contribution entry.
pub fn contribution_display(repo: &RepoInfo) -> (line: ContributionDisplay)
    ensures
        line@ == shown_contribution(repo@),
{
    ContributionDisplay {
        url: repo_url(repo.name.as_str()),
        name: repo.name.clone(),
        stars: format_stars(repo.stars),
        pr_label: pr_label(repo.count),
        year: repo.year,
    }
}

/// Derives the line that shows an owned repository.
pub fn active_display(repo: &ActiveRepo) -> (line: ActiveRepoDisplay)
    ensures
        line@ == shown_active(repo@),
{
    ActiveRepoDisplay {
        name: repo.name.clone(),
        url: repo.url.clone(),
        stars: format_stars(repo.stars),
        description: match &repo.description {
            Some(text) => Some(text.clone()),
            None => None,
        },
    }
}

/// Derives the lines that show a list of contribution entries, in the same order.
pub fn contribution_displays(repos: &Vec<RepoInfo>) -> (lines: Vec<ContributionDisplay>)
    ensures
        contribution_display_views(lines@) == shown_contributions(repo_views(repos@)),
{
    let mut lines: Vec<ContributionDisplay> = Vec::new();
    let mut i: usize = 0;
    while i < repos.len()
        invariant
            i <= repos.len(),
            lines@.len() == i,
            forall|j: int| 0 <= j < i ==> (#[trigger] lines@[j])@ == shown_contribution(repos@[j]@),
        decreases repos.len() - i,
    {
        lines.push(contribution_display(&repos[i]));
        i += 1;
    }
    lines
}

/// Derives the lines that show a list of owned repositories, in the same order.
pub fn active_displays(repos: &Vec<ActiveRepo>) -> (lines: Vec<ActiveRepoDisplay>)
    ensures
        active_display_views(lines@) == shown_actives(active_views(repos@)),
{
    let mut lines: Vec<ActiveRepoDisplay> = Vec::new();
    let mut i: usize = 0;
    while i < repos.len()
        invariant
            i <= repos.len(),
            lines@.len() == i,
            forall|j: int| 0 <= j < i ==> (#[trigger] lines@[j])@ == shown_active(repos@[j]@),
        decreases repos.len() - i,
    {
        lines.push(active_display(&repos[i]));
        i += 1;
    }
    lines
}

/// Turns what the two fetches brought into the two lists that are shown: the
/// contribution records are merged into one entry for each repository outside the
/// user's own namespace and sorted by year and stars; the owned repositories are
/// sorted by name without regard to case; each entry is then given its labels.
pub fn build_context(repos: &Vec<RepoInfo>, active_repos: Vec<ActiveRepo>, username: &str) -> (context:
    TemplateContext)
    ensures
        contribution_display_views(context.contributions@) == shown_contributions(
            stable_sorted(aggregated(repo_views(repos@), username@), contribution_order()),
        ),
        active_display_views(context.active_repos@) == shown_actives(
            stable_sorted(active_views(active_repos@), name_order()),
        ),
{
    let entries = rank_contributions(aggregate(repos, username));
    let owned = rank_active(active_repos);
    TemplateContext {
        active_repos: active_displays(&owned),
        contributions: contribution_displays(&entries),
    }
}

} // verus!
