use vstd::prelude::*;
use crate::model::{repo_views, RepoInfo, RepoInfoView};
use crate::text::chars_of;

verus! {

/// Whether a repository's full name lies in a user's own namespace: it starts with the
/// login followed by a slash.
pub open spec fn in_namespace(name: Seq<char>, username: Seq<char>) -> bool {
    username.push('/').is_prefix_of(name)
}

/// Whether some entry of a list is about the repository of the given name.
pub open spec fn has_entry(entries: Seq<RepoInfoView>, name: Seq<char>) -> bool {
    exists|i: int| 0 <= i < entries.len() && #[trigger] entries[i].name == name
}

/// The entry made at the first sighting of a repository: the record's name, stars and
/// year, with a count of one.
pub open spec fn first_sighting(record: RepoInfoView) -> RepoInfoView {
    RepoInfoView { name: record.name, stars: record.stars, year: record.year, count: 1 }
}

/// An entry after one more sighting of its repository: the count goes up by one, the
/// year rises to that of the record if that is later, and the stars stay.
pub open spec fn sighted_again(entry: RepoInfoView, record: RepoInfoView) -> RepoInfoView {
    RepoInfoView {
        name: entry.name,
        stars: entry.stars,
        year: if record.year > entry.year {
            record.year
        } else {
            entry.year
        },
        count: entry.count + 1,
    }
}

/// A list of entries after one more record: the entry of the record's repository is
/// updated where there is one, and a new entry is appended where there is none.
pub open spec fn merged(entries: Seq<RepoInfoView>, record: RepoInfoView) -> Seq<RepoInfoView> {
    if has_entry(entries, record.name) {
        entries.map_values(
            |entry: RepoInfoView|
                if entry.name == record.name {
                    sighted_again(entry, record)
                } else {
                    entry
                },
        )
    } else {
        entries.push(first_sighting(record))
    }
}

/// The entries that a sequence of contribution records comes to for a user: the
/// records are merged one by one, in order, and those in the user's own namespace are
/// passed over.
pub open spec fn aggregated(records: Seq<RepoInfoView>, username: Seq<char>) -> Seq<RepoInfoView>
    decreases records.len(),
{
    if records.len() == 0 {
        Seq::empty()
    } else if in_namespace(records.last().name, username) {
        aggregated(records.drop_last(), username)
    } else {
        merged(aggregated(records.drop_last(), username), records.last())
    }
}

/// How many of the records are about the repository of the given name.
pub open spec fn times_seen(records: Seq<RepoInfoView>, name: Seq<char>) -> nat
    decreases records.len(),
{
    if records.len() == 0 {
        0
    } else if records.last().name == name {
        times_seen(records.drop_last(), name) + 1
    } else {
        times_seen(records.drop_last(), name)
    }
}

/// The latest year among the records about the repository of the given name; zero
/// where there is no such record.
pub open spec fn latest_year(records: Seq<RepoInfoView>, name: Seq<char>) -> nat
    decreases records.len(),
{
    if records.len() == 0 {
        0
    } else {
        let earlier = latest_year(records.drop_last(), name);
        if records.last().name == name && records.last().year > earlier {
            records.last().year
        } else {
            earlier
        }
    }
}

/// The star count of the first record about the repository of the given name; zero
/// where there is no such record.
pub open spec fn first_stars(records: Seq<RepoInfoView>, name: Seq<char>) -> nat
    decreases records.len(),
{
    if records.len() == 0 {
        0
    } else if times_seen(records.drop_last(), name) > 0 {
        first_stars(records.drop_last(), name)
    } else if records.last().name == name {
        records.last().stars
    } else {
        0
    }
}

/// The entry that the records about one repository come to: the stars of the first
/// of them, the latest of their years, and their number.
pub open spec fn summary(records: Seq<RepoInfoView>, name: Seq<char>) -> RepoInfoView {
    RepoInfoView {
        name,
        stars: first_stars(records, name),
        year: latest_year(records, name),
        count: times_seen(records, name),
    }
}

/// What it means for a list of entries to aggregate a sequence of records for a user:
/// no two entries share a name; every entry is about a repository outside the user's
/// namespace and summarises the records about it, of which there is at least one; and
/// every repository outside the namespace that a record is about has an entry.
pub open spec fn is_aggregate_of(
    entries: Seq<RepoInfoView>,
    records: Seq<RepoInfoView>,
    username: Seq<char>,
) -> bool {
    &&& forall|i: int, j: int|
        0 <= i < j < entries.len() ==> (#[trigger] entries[i]).name != (#[trigger] entries[j]).name
    &&& forall|i: int|
        0 <= i < entries.len() ==> {
            &&& !in_namespace((#[trigger] entries[i]).name, username)
            &&& entries[i].count >= 1
            &&& entries[i] == summary(records, entries[i].name)
        }
    &&& forall|name: Seq<char>|
        times_seen(records, name) > 0 && !in_namespace(name, username) ==> #[trigger] has_entry(
            entries,
            name,
        )
}

proof fn lemma_unseen(records: Seq<RepoInfoView>, name: Seq<char>)
    requires
        times_seen(records, name) == 0,
    ensures
        latest_year(records, name) == 0,
        forall|k: int| 0 <= k < records.len() ==> (#[trigger] records[k]).name != name,
    decreases records.len(),
{
    if records.len() > 0 {
        lemma_unseen(records.drop_last(), name);
        assert forall|k: int| 0 <= k < records.len() implies (#[trigger] records[k]).name
            != name by {
            if k < records.len() - 1 {
                assert(records.drop_last()[k] == records[k]);
            }
        }
    }
}

/// The entries that records are merged into aggregate these records: one entry for
/// each repository outside the user's namespace, holding the number of records about
/// it, the latest of their years and the stars of the first of them.
pub proof fn lemma_aggregated_is_aggregate(records: Seq<RepoInfoView>, username: Seq<char>)
    ensures
        is_aggregate_of(aggregated(records, username), records, username),
    decreases records.len(),
{
    let entries = aggregated(records, username);
    if records.len() > 0 {
        let earlier = records.drop_last();
        let record = records.last();
        let before = aggregated(earlier, username);
        lemma_aggregated_is_aggregate(earlier, username);
        if in_namespace(record.name, username) {
            // The record is passed over, and no entry is about its repository.
            assert forall|name: Seq<char>|
                times_seen(records, name) > 0 && !in_namespace(name, username)
                implies #[trigger] has_entry(entries, name) by {
                assert(has_entry(before, name));
            }
        } else if has_entry(before, record.name) {
            // The entry of the record's repository is updated in its place.
            assert forall|i: int| 0 <= i < entries.len() implies {
                &&& !in_namespace((#[trigger] entries[i]).name, username)
                &&& entries[i].count >= 1
                &&& entries[i] == summary(records, entries[i].name)
            } by {
                assert(before[i] == summary(earlier, before[i].name));
            }
            assert forall|i: int, j: int| 0 <= i < j < entries.len() implies (
            #[trigger] entries[i]).name != (#[trigger] entries[j]).name by {
                assert(before[i].name != before[j].name);
            }
            assert forall|name: Seq<char>|
                times_seen(records, name) > 0 && !in_namespace(name, username)
                implies #[trigger] has_entry(entries, name) by {
                assert(has_entry(before, name));
                let i = choose|i: int| 0 <= i < before.len() && #[trigger] before[i].name == name;
                assert(entries[i].name == name);
            }
        } else {
            // The record's repository is new: it was not seen before, and gets the
            // last entry.
            lemma_unseen(earlier, record.name);
            assert forall|i: int| 0 <= i < entries.len() implies {
                &&& !in_namespace((#[trigger] entries[i]).name, username)
                &&& entries[i].count >= 1
                &&& entries[i] == summary(records, entries[i].name)
            } by {
                if i < before.len() {
                    assert(before[i] == summary(earlier, before[i].name));
                }
            }
            assert forall|i: int, j: int| 0 <= i < j < entries.len() implies (
            #[trigger] entries[i]).name != (#[trigger] entries[j]).name by {
                if j < before.len() {
                    assert(before[i].name != before[j].name);
                }
            }
            assert forall|name: Seq<char>|
                times_seen(records, name) > 0 && !in_namespace(name, username)
                implies #[trigger] has_entry(entries, name) by {
                if name == record.name {
                    assert(entries[before.len() as int].name == name);
                } else {
                    assert(has_entry(before, name));
                    let i = choose|i: int| 0 <= i < before.len() && #[trigger] before[i].name == name;
                    assert(entries[i].name == name);
                }
            }
        }
    }
}

/// The records decide their aggregate up to the order of its entries: two lists that
/// aggregate the same records for the same user hold the same entries.
pub proof fn lemma_aggregate_unique(
    first: Seq<RepoInfoView>,
    second: Seq<RepoInfoView>,
    records: Seq<RepoInfoView>,
    username: Seq<char>,
)
    requires
        is_aggregate_of(first, records, username),
        is_aggregate_of(second, records, username),
    ensures
        first.to_set() == second.to_set(),
{
    assert forall|entry: RepoInfoView| first.contains(entry) implies second.contains(entry) by {
        lemma_entry_in_every_aggregate(first, second, records, username, entry);
    }
    assert forall|entry: RepoInfoView| second.contains(entry) implies first.contains(entry) by {
        lemma_entry_in_every_aggregate(second, first, records, username, entry);
    }
    assert(first.to_set() =~= second.to_set());
}

proof fn lemma_entry_in_every_aggregate(
    first: Seq<RepoInfoView>,
    second: Seq<RepoInfoView>,
    records: Seq<RepoInfoView>,
    username: Seq<char>,
    entry: RepoInfoView,
)
    requires
        is_aggregate_of(first, records, username),
        is_aggregate_of(second, records, username),
        first.contains(entry),
    ensures
        second.contains(entry),
{
    let i = choose|i: int| 0 <= i < first.len() && first[i] == entry;
    assert(first[i] == summary(records, entry.name));
    assert(has_entry(second, entry.name));
    let j = choose|j: int| 0 <= j < second.len() && #[trigger] second[j].name == entry.name;
    assert(second[j] == summary(records, entry.name));
}

/// An entry is never taken back and never counts down: after one more record, every
/// repository that had an entry still has one, with a count and a year that are no
/// smaller and with the same stars.
pub proof fn lemma_entries_only_grow(
    records: Seq<RepoInfoView>,
    record: RepoInfoView,
    username: Seq<char>,
    i: int,
) -> (j: int)
    requires
        0 <= i < aggregated(records, username).len(),
    ensures
        0 <= j < aggregated(records.push(record), username).len(),
        aggregated(records.push(record), username)[j].name == aggregated(records, username)[i].name,
        aggregated(records.push(record), username)[j].stars == aggregated(
            records,
            username,
        )[i].stars,
        aggregated(records.push(record), username)[j].count >= aggregated(
            records,
            username,
        )[i].count,
        aggregated(records.push(record), username)[j].year >= aggregated(records, username)[i].year,
{
    let before = aggregated(records, username);
    let after = aggregated(records.push(record), username);
    assert(records.push(record).drop_last() =~= records);
    if !in_namespace(record.name, username) && has_entry(before, record.name) {
        assert(after[i] == if before[i].name == record.name {
            sighted_again(before[i], record)
        } else {
            before[i]
        });
    }
    i
}

proof fn lemma_times_seen_bounded(records: Seq<RepoInfoView>, name: Seq<char>)
    ensures
        times_seen(records, name) <= records.len(),
    decreases records.len(),
{
    if records.len() > 0 {
        lemma_times_seen_bounded(records.drop_last(), name);
    }
}

/// No entry of an aggregate is about a repository in the user's own namespace,
/// whatever the records hold.
pub proof fn lemma_own_namespace_excluded(
    records: Seq<RepoInfoView>,
    username: Seq<char>,
    i: int,
)
    requires
        0 <= i < aggregated(records, username).len(),
    ensures
        !in_namespace(aggregated(records, username)[i].name, username),
{
    lemma_aggregated_is_aggregate(records, username);
}

fn starts_with_login(name: &str, login: &Vec<char>) -> (own: bool)
    ensures
        own == in_namespace(name@, login@),
{
    let chars = chars_of(name);
    if chars.len() <= login.len() {
        return false;
    }
    let mut i: usize = 0;
    while i < login.len()
        invariant
            i <= login.len() < chars.len(),
            chars@ == name@,
            forall|j: int| 0 <= j < i ==> chars[j] == login[j],
        decreases login.len() - i,
    {
        if chars[i] != login[i] {
            assert(login@.push('/')[i as int] != name@.subrange(0, login.len() + 1)[i as int]);
            return false;
        }
        i += 1;
    }
    let own = chars[login.len()] == '/';
    proof {
        let prefix = login@.push('/');
        if !own {
            assert(prefix[login.len() as int] != name@.subrange(0, prefix.len() as int)[login.len() as int]);
        }
    }
    own
}

/// Decides whether a repository's full name lies in a user's own namespace.
pub fn is_own(name: &str, username: &str) -> (own: bool)
    ensures
        own == in_namespace(name@, username@),
{
    let login = chars_of(username);
    starts_with_login(name, &login)
}

fn merge_record(entries: &mut Vec<RepoInfo>, record: &RepoInfo)
    requires
        forall|i: int, j: int|
            0 <= i < j < old(entries)@.len() ==> (#[trigger] old(entries)@[i]).name@ != (
            #[trigger] old(entries)@[j]).name@,
        forall|i: int| 0 <= i < old(entries)@.len() ==> (#[trigger] old(entries)@[i]).count < u64::MAX,
    ensures
        repo_views(final(entries)@) == merged(repo_views(old(entries)@), record@),
{
    let mut i: usize = 0;
    while i < entries.len()
        invariant
            i <= entries.len(),
            entries@ == old(entries)@,
            forall|j: int| 0 <= j < i ==> (#[trigger] entries@[j]).name@ != record.name@,
            forall|k: int, l: int|
                0 <= k < l < entries@.len() ==> (#[trigger] entries@[k]).name@ != (
                #[trigger] entries@[l]).name@,
            forall|k: int| 0 <= k < entries@.len() ==> (#[trigger] entries@[k]).count < u64::MAX,
        decreases entries.len() - i,
    {
        if entries[i].name == record.name {
            let entry = &entries[i];
            let updated = RepoInfo {
                name: entry.name.clone(),
                stars: entry.stars,
                year: if record.year > entry.year {
                    record.year
                } else {
                    entry.year
                },
                count: entry.count + 1,
            };
            proof {
                let before = repo_views(old(entries)@);
                assert(before[i as int].name == record@.name);
                assert(repo_views(old(entries)@.update(i as int, updated)) =~= merged(
                    before,
                    record@,
                )) by {
                    assert forall|j: int| 0 <= j < before.len() implies repo_views(
                        old(entries)@.update(i as int, updated),
                    )[j] == merged(before, record@)[j] by {
                        if j != i {
                            assert(old(entries)@[j].name@ != old(entries)@[i as int].name@);
                        }
                    }
                }
            }
            entries.set(i, updated);
            return ;
        }
        i += 1;
    }
    let fresh = RepoInfo {
        name: record.name.clone(),
        stars: record.stars,
        year: record.year,
        count: 1,
    };
    proof {
        let before = repo_views(old(entries)@);
        assert(!has_entry(before, record@.name)) by {
            if has_entry(before, record@.name) {
                let k = choose|k: int| 0 <= k < before.len() && #[trigger] before[k].name == record@.name;
                assert(entries@[k].name@ == record.name@);
            }
        }
    }
    entries.push(fresh);
}

/// Merges the contribution records of a user into one entry for each repository
/// outside the user's own namespace. The entries stand in the order in which their
/// repositories were first seen; each holds the number of records about its
/// repository, the latest of their years, and the star count of the first of them.
pub fn aggregate(records: &Vec<RepoInfo>, username: &str) -> (entries: Vec<RepoInfo>)
    ensures
        repo_views(entries@) == aggregated(repo_views(records@), username@),
        is_aggregate_of(repo_views(entries@), repo_views(records@), username@),
{
    let login = chars_of(username);
    let mut entries: Vec<RepoInfo> = Vec::new();
    let mut i: usize = 0;
    let ghost all = repo_views(records@);
    while i < records.len()
        invariant
            i <= records.len(),
            login@ == username@,
            all == repo_views(records@),
            repo_views(entries@) == aggregated(all.take(i as int), username@),
        decreases records.len() - i,
    {
        let record = &records[i];
        proof {
            let seen = all.take(i as int);
            lemma_aggregated_is_aggregate(seen, username@);
            assert(all.take(i + 1).drop_last() =~= seen);
            assert forall|k: int| 0 <= k < entries@.len() implies (#[trigger] entries@[k]).count
                < u64::MAX by {
                lemma_times_seen_bounded(seen, repo_views(entries@)[k].name);
            }
            assert forall|k: int, l: int| 0 <= k < l < entries@.len() implies (
            #[trigger] entries@[k]).name@ != (#[trigger] entries@[l]).name@ by {
                assert(repo_views(entries@)[k].name != repo_views(entries@)[l].name);
            }
        }
        if !starts_with_login(record.name.as_str(), &login) {
            merge_record(&mut entries, record);
        }
        i += 1;
    }
    proof {
        assert(all.take(i as int) =~= all);
        lemma_aggregated_is_aggregate(all, username@);
    }
    entries
}

/// Whether all records about one repository carry the same star count.
pub open spec fn stars_agree(records: Seq<RepoInfoView>) -> bool {
    forall|i: int, j: int|
        0 <= i < records.len() && 0 <= j < records.len() && (#[trigger] records[i]).name == (
        #[trigger] records[j]).name ==> records[i].stars == records[j].stars
}

proof fn lemma_times_seen_remove(records: Seq<RepoInfoView>, k: int, name: Seq<char>)
    requires
        0 <= k < records.len(),
    ensures
        times_seen(records, name) == times_seen(records.remove(k), name) + if records[k].name
            == name {
            1nat
        } else {
            0nat
        },
    decreases records.len(),
{
    if k < records.len() - 1 {
        assert(records.remove(k).drop_last() =~= records.drop_last().remove(k));
        lemma_times_seen_remove(records.drop_last(), k, name);
    }
}

proof fn lemma_times_seen_reordered(a: Seq<RepoInfoView>, b: Seq<RepoInfoView>, name: Seq<char>)
    requires
        a.to_multiset() == b.to_multiset(),
    ensures
        times_seen(a, name) == times_seen(b, name),
    decreases a.len(),
{
    vstd::seq_lib::to_multiset_len(a);
    vstd::seq_lib::to_multiset_len(b);
    if a.len() > 0 {
        let last = a.last();
        assert(a.contains(last));
        vstd::seq_lib::to_multiset_contains(a, last);
        vstd::seq_lib::to_multiset_contains(b, last);
        let k = choose|k: int| 0 <= k < b.len() && b[k] == last;
        vstd::seq_lib::to_multiset_remove(a, a.len() - 1);
        vstd::seq_lib::to_multiset_remove(b, k);
        lemma_times_seen_reordered(a.drop_last(), b.remove(k), name);
        lemma_times_seen_remove(b, k, name);
    }
}

proof fn lemma_latest_year_is_max(records: Seq<RepoInfoView>, name: Seq<char>)
    ensures
        forall|k: int|
            0 <= k < records.len() && (#[trigger] records[k]).name == name ==> records[k].year
                <= latest_year(records, name),
        latest_year(records, name) == 0 || exists|k: int|
            0 <= k < records.len() && (#[trigger] records[k]).name == name && records[k].year
                == latest_year(records, name),
    decreases records.len(),
{
    if records.len() > 0 {
        let earlier = records.drop_last();
        lemma_latest_year_is_max(earlier, name);
        assert forall|k: int| 0 <= k < records.len() && (#[trigger] records[k]).name
            == name implies records[k].year <= latest_year(records, name) by {
            if k < earlier.len() {
                assert(earlier[k] == records[k]);
            }
        }
        if latest_year(records, name) != 0 {
            if records.last().name == name && records.last().year > latest_year(earlier, name) {
                assert(records[records.len() - 1].name == name);
            } else {
                let k = choose|k: int|
                    0 <= k < earlier.len() && (#[trigger] earlier[k]).name == name
                        && earlier[k].year == latest_year(earlier, name);
                assert(records[k] == earlier[k]);
            }
        }
    }
}

proof fn lemma_first_stars_is_seen(records: Seq<RepoInfoView>, name: Seq<char>)
    requires
        times_seen(records, name) > 0,
    ensures
        exists|k: int|
            0 <= k < records.len() && (#[trigger] records[k]).name == name && records[k].stars
                == first_stars(records, name),
    decreases records.len(),
{
    let earlier = records.drop_last();
    if times_seen(earlier, name) > 0 {
        lemma_first_stars_is_seen(earlier, name);
        let k = choose|k: int|
            0 <= k < earlier.len() && (#[trigger] earlier[k]).name == name && earlier[k].stars
                == first_stars(earlier, name);
        assert(records[k] == earlier[k]);
    } else {
        assert(records[records.len() - 1].name == name);
    }
}

proof fn lemma_same_members(a: Seq<RepoInfoView>, b: Seq<RepoInfoView>, k: int) -> (l: int)
    requires
        a.to_multiset() == b.to_multiset(),
        0 <= k < a.len(),
    ensures
        0 <= l < b.len(),
        b[l] == a[k],
{
    vstd::seq_lib::to_multiset_contains(a, a[k]);
    vstd::seq_lib::to_multiset_contains(b, a[k]);
    choose|l: int| 0 <= l < b.len() && b[l] == a[k]
}

proof fn lemma_summary_reordered(a: Seq<RepoInfoView>, b: Seq<RepoInfoView>, name: Seq<char>)
    requires
        a.to_multiset() == b.to_multiset(),
        stars_agree(a),
    ensures
        summary(a, name) == summary(b, name),
{
    lemma_times_seen_reordered(a, b, name);
    lemma_latest_year_is_max(a, name);
    lemma_latest_year_is_max(b, name);
    if latest_year(a, name) != 0 {
        let k = choose|k: int|
            0 <= k < a.len() && (#[trigger] a[k]).name == name && a[k].year == latest_year(
                a,
                name,
            );
        let l = lemma_same_members(a, b, k);
        assert(b[l].name == name);
    }
    if latest_year(b, name) != 0 {
        let k = choose|k: int|
            0 <= k < b.len() && (#[trigger] b[k]).name == name && b[k].year == latest_year(
                b,
                name,
            );
        let l = lemma_same_members(b, a, k);
        assert(a[l].name == name);
    }
    if times_seen(a, name) > 0 {
        lemma_first_stars_is_seen(a, name);
        lemma_first_stars_is_seen(b, name);
        let k = choose|k: int|
            0 <= k < a.len() && (#[trigger] a[k]).name == name && a[k].stars == first_stars(
                a,
                name,
            );
        let m = choose|m: int|
            0 <= m < b.len() && (#[trigger] b[m]).name == name && b[m].stars == first_stars(
                b,
                name,
            );
        let l = lemma_same_members(b, a, m);
        assert(a[l].name == a[k].name);
    } else {
        lemma_unseen(a, name);
        lemma_unseen(b, name);
        lemma_first_stars_unseen(a, name);
        lemma_first_stars_unseen(b, name);
    }
}

proof fn lemma_first_stars_unseen(records: Seq<RepoInfoView>, name: Seq<char>)
    requires
        times_seen(records, name) == 0,
    ensures
        first_stars(records, name) == 0,
    decreases records.len(),
{
    if records.len() > 0 {
        lemma_first_stars_unseen(records.drop_last(), name);
    }
}

proof fn lemma_entries_carry_over(
    a: Seq<RepoInfoView>,
    b: Seq<RepoInfoView>,
    username: Seq<char>,
    entry: RepoInfoView,
)
    requires
        a.to_multiset() == b.to_multiset(),
        stars_agree(a),
        aggregated(a, username).contains(entry),
    ensures
        aggregated(b, username).contains(entry),
{
    let from_a = aggregated(a, username);
    let from_b = aggregated(b, username);
    lemma_aggregated_is_aggregate(a, username);
    lemma_aggregated_is_aggregate(b, username);
    let i = choose|i: int| 0 <= i < from_a.len() && from_a[i] == entry;
    assert(from_a[i] == summary(a, entry.name));
    lemma_summary_reordered(a, b, entry.name);
    assert(has_entry(from_b, entry.name));
    let j = choose|j: int| 0 <= j < from_b.len() && #[trigger] from_b[j].name == entry.name;
    assert(from_b[j] == summary(b, entry.name));
}

/// Aggregation does not depend on the order of the records: two sequences that hold
/// the same records, each as often as the other, come to the same set of entries,
/// provided that all records about one repository carry the same star count.
pub proof fn lemma_order_independent(
    a: Seq<RepoInfoView>,
    b: Seq<RepoInfoView>,
    username: Seq<char>,
)
    requires
        a.to_multiset() == b.to_multiset(),
        stars_agree(a),
    ensures
        aggregated(a, username).to_set() == aggregated(b, username).to_set(),
{
    assert(stars_agree(b)) by {
        assert forall|i: int, j: int|
            0 <= i < b.len() && 0 <= j < b.len() && (#[trigger] b[i]).name == (
            #[trigger] b[j]).name implies b[i].stars == b[j].stars by {
            let k = lemma_same_members(b, a, i);
            let l = lemma_same_members(b, a, j);
            assert(a[k].name == a[l].name);
        }
    }
    assert forall|entry: RepoInfoView|
        aggregated(a, username).to_set().contains(entry) <==> aggregated(
            b,
            username,
        ).to_set().contains(entry) by {
        if aggregated(a, username).contains(entry) {
            lemma_entries_carry_over(a, b, username, entry);
        }
        if aggregated(b, username).contains(entry) {
            lemma_entries_carry_over(b, a, username, entry);
        }
    }
}

} // verus!
