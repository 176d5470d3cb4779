use vstd::prelude::*;
use crate::model::{active_views, repo_views, ActiveRepo, ActiveRepoView, RepoInfo, RepoInfoView};
use crate::order::{
    first_place, in_order, is_ranking, is_stable_sort_of, lemma_stable_sorted,
    lemma_stable_sorted_projects, stable_sorted,
};
use crate::text::chars_of;

verus! {

/// Whether one contribution entry may stand before another: it has the later year,
/// or the same year and at least as many stars.
pub open spec fn ranks_before(a: RepoInfoView, b: RepoInfoView) -> bool {
    a.year > b.year || (a.year == b.year && a.stars >= b.stars)
}

/// The order of the contribution list: by year, latest first, then by stars, most
/// first.
pub open spec fn contribution_order() -> spec_fn(RepoInfoView, RepoInfoView) -> bool {
    |a: RepoInfoView, b: RepoInfoView| ranks_before(a, b)
}

/// The order of the contribution list can rank: any two entries compare, and the
/// comparison is transitive.
pub proof fn lemma_contribution_order_ranks()
    ensures
        is_ranking(contribution_order()),
{
}

fn outranks(a: &RepoInfo, b: &RepoInfo) -> (strictly: bool)
    ensures
        strictly == !ranks_before(b@, a@),
{
    a.year > b.year || (a.year == b.year && a.stars > b.stars)
}

/// Sorts contribution entries by year, latest first, and within a year by stars, most
/// first. Entries that agree in both keep the order in which they came, so an input
/// that is already sorted comes back unchanged.
pub fn rank_contributions(repos: Vec<RepoInfo>) -> (ranked: Vec<RepoInfo>)
    ensures
        repo_views(ranked@) == stable_sorted(repo_views(repos@), contribution_order()),
        is_stable_sort_of(repo_views(ranked@), repo_views(repos@), contribution_order()),
        repo_views(ranked@).to_multiset() == repo_views(repos@).to_multiset(),
        ranked@.len() == repos@.len(),
        in_order(repo_views(repos@), contribution_order()) ==> repo_views(ranked@) == repo_views(
            repos@,
        ),
{
    let ghost given = repo_views(repos@);
    let ghost order = contribution_order();
    let mut rest = repos;
    let mut ranked: Vec<RepoInfo> = Vec::new();
    proof {
        assert(given.take(rest.len() as int) =~= given);
        assert(given.skip(rest.len() as int) =~= Seq::empty());
    }
    while rest.len() > 0
        invariant
            order == contribution_order(),
            rest.len() <= given.len(),
            repo_views(rest@) == given.take(rest.len() as int),
            repo_views(ranked@) == stable_sorted(given.skip(rest.len() as int), order),
        decreases rest.len(),
    {
        let ghost n = rest.len() as int;
        let x = rest.pop().unwrap();
        let ghost placed_before = repo_views(ranked@);
        proof {
            assert(x@ == given.take(n)[n - 1]);
            assert(repo_views(rest@) =~= given.take(n - 1));
            assert(given.skip(n - 1).drop_first() =~= given.skip(n));
            assert(given.skip(n - 1)[0] == x@);
            assert(placed_before.skip(0) =~= placed_before);
        }
        let mut p: usize = 0;
        while p < ranked.len() && outranks(&ranked[p], &x)
            invariant
                p <= ranked.len(),
                placed_before == repo_views(ranked@),
                order == contribution_order(),
                first_place(placed_before, x@, order) == p + first_place(
                    placed_before.skip(p as int),
                    x@,
                    order,
                ),
            decreases ranked.len() - p,
        {
            proof {
                assert(placed_before.skip(p as int)[0] == placed_before[p as int]);
                assert(placed_before.skip(p as int).drop_first() =~= placed_before.skip(p + 1));
            }
            p += 1;
        }
        ranked.insert(p, x);
    }
    proof {
        lemma_contribution_order_ranks();
        lemma_stable_sorted(given, order);
    }
    ranked
}

/// The lowercase form of a text, as the standard library gives it.
pub uninterp spec fn lowercase_of(text: Seq<char>) -> Seq<char>;

/// The lowercase form of a text. This is `str::to_lowercase` of the standard library,
/// taken on trust: the result is a function of the text alone, which is all that is
/// stated of it.
#[verifier::external_body]
fn lowercase(text: &str) -> (lower: String)
    ensures
        lower@ == lowercase_of(text@),
{
    text.to_lowercase()
}

/// Whether one text stands at or before another in the order of a dictionary over
/// code points: at the first place where they differ, the first has the smaller
/// character, or the first ends without differing.
pub open spec fn text_le(a: Seq<char>, b: Seq<char>) -> bool
    decreases a.len(),
{
    if a.len() == 0 {
        true
    } else if b.len() == 0 {
        false
    } else if a[0] != b[0] {
        a[0] < b[0]
    } else {
        text_le(a.drop_first(), b.drop_first())
    }
}

proof fn lemma_text_le_total(a: Seq<char>, b: Seq<char>)
    ensures
        text_le(a, b) || text_le(b, a),
    decreases a.len(),
{
    if a.len() > 0 && b.len() > 0 && a[0] == b[0] {
        lemma_text_le_total(a.drop_first(), b.drop_first());
    }
}

proof fn lemma_text_le_transitive(a: Seq<char>, b: Seq<char>, c: Seq<char>)
    requires
        text_le(a, b),
        text_le(b, c),
    ensures
        text_le(a, c),
    decreases a.len(),
{
    if a.len() > 0 && b.len() > 0 && c.len() > 0 && a[0] == b[0] && b[0] == c[0] {
        lemma_text_le_transitive(a.drop_first(), b.drop_first(), c.drop_first());
    }
}

/// Whether one owned repository may stand before another: its name, in lowercase, is
/// at or before the other's.
pub open spec fn name_sorts_before(a: ActiveRepoView, b: ActiveRepoView) -> bool {
    text_le(lowercase_of(a.name), lowercase_of(b.name))
}

/// The order of the list of owned repositories: by name, ascending, without regard to
/// case.
pub open spec fn name_order() -> spec_fn(ActiveRepoView, ActiveRepoView) -> bool {
    |a: ActiveRepoView, b: ActiveRepoView| name_sorts_before(a, b)
}

/// The order of the list of owned repositories can rank: any two repositories
/// compare, and the comparison is transitive.
pub proof fn lemma_name_order_ranks()
    ensures
        is_ranking(name_order()),
{
    let leq = name_order();
    assert forall|x: ActiveRepoView, y: ActiveRepoView| #[trigger] leq(x, y) || #[trigger] leq(
        y,
        x,
    ) by {
        lemma_text_le_total(lowercase_of(x.name), lowercase_of(y.name));
    }
    assert forall|x: ActiveRepoView, y: ActiveRepoView, z: ActiveRepoView| #[trigger]
        leq(x, y) && #[trigger] leq(y, z) implies leq(x, z) by {
        lemma_text_le_transitive(lowercase_of(x.name), lowercase_of(y.name), lowercase_of(z.name));
    }
}

/// Decides whether one text stands at or before another in the order of a dictionary
/// over code points.
pub fn chars_le(a: &Vec<char>, b: &Vec<char>) -> (le: bool)
    ensures
        le == text_le(a@, b@),
{
    let mut i: usize = 0;
    proof {
        assert(a@.skip(0) =~= a@);
        assert(b@.skip(0) =~= b@);
    }
    loop
        invariant
            i <= a.len(),
            i <= b.len(),
            text_le(a@, b@) == text_le(a@.skip(i as int), b@.skip(i as int)),
        decreases a.len() - i,
    {
        if i == a.len() {
            return true;
        }
        if i == b.len() {
            return false;
        }
        proof {
            assert(a@.skip(i as int)[0] == a@[i as int]);
            assert(b@.skip(i as int)[0] == b@[i as int]);
            assert(a@.skip(i as int).drop_first() =~= a@.skip(i + 1));
            assert(b@.skip(i as int).drop_first() =~= b@.skip(i + 1));
        }
        if a[i] != b[i] {
            return a[i] < b[i];
        }
        i += 1;
    }
}

/// An owned repository together with the key that it is sorted by.
#[derive(Clone, Debug, PartialEq, Eq)]
pub struct Keyed {
    pub key: Vec<char>,
    pub repo: ActiveRepo,
}

/// What a [`Keyed`] holds, as mathematical values.
pub struct KeyedView {
    pub key: Seq<char>,
    pub repo: ActiveRepoView,
}

impl View for Keyed {
    type V = KeyedView;

    open spec fn view(&self) -> KeyedView {
        KeyedView { key: self.key@, repo: self.repo@ }
    }
}

/// The views of a list of keyed repositories, in the same order.
pub open spec fn keyed_views(items: Seq<Keyed>) -> Seq<KeyedView> {
    items.map_values(|item: Keyed| item@)
}

/// The order of keyed repositories: by key, as in a dictionary over code points.
pub open spec fn key_order() -> spec_fn(KeyedView, KeyedView) -> bool {
    |a: KeyedView, b: KeyedView| text_le(a.key, b.key)
}

/// The order of keyed repositories can rank: any two of them compare, and the
/// comparison is transitive.
pub proof fn lemma_key_order_ranks()
    ensures
        is_ranking(key_order()),
{
    let leq = key_order();
    assert forall|x: KeyedView, y: KeyedView| #[trigger] leq(x, y) || #[trigger] leq(y, x) by {
        lemma_text_le_total(x.key, y.key);
    }
    assert forall|x: KeyedView, y: KeyedView, z: KeyedView| #[trigger]
        leq(x, y) && #[trigger] leq(y, z) implies leq(x, z) by {
        lemma_text_le_transitive(x.key, y.key, z.key);
    }
}

/// Sorts keyed repositories by key, ascending. Repositories whose keys agree keep the
/// order in which they came, so an input that is already sorted comes back unchanged.
pub fn rank_keyed(items: Vec<Keyed>) -> (ranked: Vec<Keyed>)
    ensures
        keyed_views(ranked@) == stable_sorted(keyed_views(items@), key_order()),
        is_stable_sort_of(keyed_views(ranked@), keyed_views(items@), key_order()),
        keyed_views(ranked@).to_multiset() == keyed_views(items@).to_multiset(),
        ranked@.len() == items@.len(),
        in_order(keyed_views(items@), key_order()) ==> keyed_views(ranked@) == keyed_views(items@),
{
    let ghost given = keyed_views(items@);
    let ghost order = key_order();
    let mut rest = items;
    let mut ranked: Vec<Keyed> = Vec::new();
    proof {
        assert(given.take(rest.len() as int) =~= given);
        assert(given.skip(rest.len() as int) =~= Seq::empty());
    }
    while rest.len() > 0
        invariant
            order == key_order(),
            rest.len() <= given.len(),
            keyed_views(rest@) == given.take(rest.len() as int),
            keyed_views(ranked@) == stable_sorted(given.skip(rest.len() as int), order),
        decreases rest.len(),
    {
        let ghost n = rest.len() as int;
        let x = rest.pop().unwrap();
        let ghost placed_before = keyed_views(ranked@);
        proof {
            assert(x@ == given.take(n)[n - 1]);
            assert(keyed_views(rest@) =~= given.take(n - 1));
            assert(given.skip(n - 1).drop_first() =~= given.skip(n));
            assert(placed_before.skip(0) =~= placed_before);
        }
        let mut p: usize = 0;
        while p < ranked.len() && !chars_le(&x.key, &ranked[p].key)
            invariant
                p <= ranked.len(),
                placed_before == keyed_views(ranked@),
                order == key_order(),
                first_place(placed_before, x@, order) == p + first_place(
                    placed_before.skip(p as int),
                    x@,
                    order,
                ),
            decreases ranked.len() - p,
        {
            proof {
                assert(placed_before.skip(p as int)[0] == placed_before[p as int]);
                assert(placed_before.skip(p as int).drop_first() =~= placed_before.skip(p + 1));
            }
            p += 1;
        }
        proof {
            if p < ranked.len() {
                assert(placed_before.skip(p as int)[0] == placed_before[p as int]);
            }
            assert(keyed_views(ranked@.insert(p as int, x)) =~= placed_before.insert(p as int, x@));
        }
        ranked.insert(p, x);
    }
    proof {
        lemma_key_order_ranks();
        lemma_stable_sorted(given, order);
    }
    ranked
}

/// Whether each repository of a list is keyed by its name in lowercase.
pub open spec fn keyed_by_lowercase_name(items: Seq<KeyedView>) -> bool {
    forall|i: int| 0 <= i < items.len() ==> (#[trigger] items[i]).key == lowercase_of(items[i].repo.name)
}

/// The repositories of a list of keyed repositories, in the same order.
pub open spec fn repos_of(items: Seq<KeyedView>) -> Seq<ActiveRepoView> {
    items.map_values(|item: KeyedView| item.repo)
}

/// Gives each repository of a list its name in lowercase as key.
pub fn key_by_lowercase_name(repos: Vec<ActiveRepo>) -> (items: Vec<Keyed>)
    ensures
        repos_of(keyed_views(items@)) == active_views(repos@),
        keyed_by_lowercase_name(keyed_views(items@)),
{
    let ghost given = active_views(repos@);
    let mut rest = repos;
    let mut stack: Vec<Keyed> = Vec::new();
    while rest.len() > 0
        invariant
            rest.len() <= given.len(),
            active_views(rest@) == given.take(rest.len() as int),
            stack@.len() + rest@.len() == given.len(),
            forall|k: int|
                0 <= k < stack@.len() ==> (#[trigger] stack@[k])@.repo == given[given.len() - 1 - k]
                    && stack@[k]@.key == lowercase_of(stack@[k]@.repo.name),
        decreases rest.len(),
    {
        let ghost n = rest.len() as int;
        let repo = rest.pop().unwrap();
        proof {
            assert(repo@ == given.take(n)[n - 1]);
            assert(active_views(rest@) =~= given.take(n - 1));
        }
        let lower = lowercase(repo.name.as_str());
        stack.push(Keyed { key: chars_of(lower.as_str()), repo });
    }
    let mut items: Vec<Keyed> = Vec::new();
    while stack.len() > 0
        invariant
            stack@.len() + items@.len() == given.len(),
            forall|k: int|
                0 <= k < stack@.len() ==> (#[trigger] stack@[k])@.repo == given[given.len() - 1 - k],
            forall|k: int|
                0 <= k < items@.len() ==> (#[trigger] items@[k])@.repo == given[k]
                    && items@[k]@.key == lowercase_of(items@[k]@.repo.name),
            forall|k: int|
                0 <= k < stack@.len() ==> (#[trigger] stack@[k])@.key == lowercase_of(
                    stack@[k]@.repo.name,
                ),
        decreases stack.len(),
    {
        let item = stack.pop().unwrap();
        items.push(item);
    }
    proof {
        assert(repos_of(keyed_views(items@)) =~= given);
    }
    items
}

/// The repositories of a list of keyed repositories, without their keys.
pub fn without_keys(items: Vec<Keyed>) -> (repos: Vec<ActiveRepo>)
    ensures
        active_views(repos@) == repos_of(keyed_views(items@)),
{
    let ghost given = repos_of(keyed_views(items@));
    let mut rest = items;
    let mut stack: Vec<ActiveRepo> = Vec::new();
    while rest.len() > 0
        invariant
            rest.len() <= given.len(),
            repos_of(keyed_views(rest@)) == given.take(rest.len() as int),
            stack@.len() + rest@.len() == given.len(),
            forall|k: int|
                0 <= k < stack@.len() ==> (#[trigger] stack@[k])@ == given[given.len() - 1 - k],
        decreases rest.len(),
    {
        let ghost n = rest.len() as int;
        let item = rest.pop().unwrap();
        proof {
            assert(item@.repo == given.take(n)[n - 1]);
            assert(repos_of(keyed_views(rest@)) =~= given.take(n - 1));
        }
        stack.push(item.repo);
    }
    let mut repos: Vec<ActiveRepo> = Vec::new();
    while stack.len() > 0
        invariant
            stack@.len() + repos@.len() == given.len(),
            forall|k: int|
                0 <= k < stack@.len() ==> (#[trigger] stack@[k])@ == given[given.len() - 1 - k],
            forall|k: int| 0 <= k < repos@.len() ==> (#[trigger] repos@[k])@ == given[k],
        decreases stack.len(),
    {
        let repo = stack.pop().unwrap();
        repos.push(repo);
    }
    proof {
        assert(active_views(repos@) =~= given);
    }
    repos
}

/// Sorts owned repositories by name, ascending, without regard to case. Repositories
/// whose names agree in lowercase keep the order in which they came, so an input that
/// is already sorted comes back unchanged.
pub fn rank_active(repos: Vec<ActiveRepo>) -> (ranked: Vec<ActiveRepo>)
    ensures
        active_views(ranked@) == stable_sorted(active_views(repos@), name_order()),
        is_stable_sort_of(active_views(ranked@), active_views(repos@), name_order()),
        active_views(ranked@).to_multiset() == active_views(repos@).to_multiset(),
        ranked@.len() == repos@.len(),
        in_order(active_views(repos@), name_order()) ==> active_views(ranked@) == active_views(
            repos@,
        ),
{
    let items = key_by_lowercase_name(repos);
    let ghost keyed = keyed_views(items@);
    let ranked = without_keys(rank_keyed(items));
    proof {
        lemma_key_order_ranks();
        lemma_name_order_ranks();
        let part = |item: KeyedView| item.repo;
        assert forall|i: int, j: int|
            #![trigger keyed[i], keyed[j]]
            0 <= i < keyed.len() && 0 <= j < keyed.len() implies key_order()(keyed[i], keyed[j])
            == name_order()(part(keyed[i]), part(keyed[j])) by {}
        lemma_stable_sorted_projects(keyed, part, key_order(), name_order());
        assert(keyed.map_values(part) =~= repos_of(keyed));
        assert(stable_sorted(keyed, key_order()).map_values(part) =~= repos_of(
            stable_sorted(keyed, key_order()),
        ));
        lemma_stable_sorted(active_views(repos@), name_order());
    }
    ranked
}

} // verus!
