//! History and search: the walk from HEAD along first parents.

use vstd::prelude::*;
use crate::app::summary;
use crate::git::commit::CommitView;
use crate::git::reader;
use crate::laws::refs;
use crate::repo::{FilesView, RepoView};
use crate::text;

verus! {

/// The revision that the walk from `rev` looks at in its `k`-th step.
pub open spec fn step_rev(files: FilesView, rev: Seq<char>, k: nat) -> Seq<char>
    decreases k,
{
    if k == 0 {
        rev
    } else {
        match reader::commit_at(files, step_rev(files, rev, (k - 1) as nat)) {
            Some(c) => c.parents[0],
            None => Seq::empty(),
        }
    }
}

/// The walk from a commit's parent is the walk from the commit, one step on.
proof fn lemma_step_shift(files: FilesView, rev: Seq<char>, c: CommitView, k: nat)
    requires
        reader::commit_at(files, rev) == Some(c),
    ensures
        step_rev(files, rev, k + 1) == step_rev(files, c.parents[0], k),
    decreases k,
{
    if k == 0 {
        reveal_with_fuel(step_rev, 2);
    } else {
        lemma_step_shift(files, rev, c, (k - 1) as nat);
    }
}

/// What a walk along first parents gives.
proof fn lemma_walk(files: FilesView, rev: Seq<char>, seen: Seq<Seq<char>>, limit: nat)
    ensures
        ({
            let list = reader::first_parents(files, rev, seen, limit);
            &&& list.len() <= limit
            &&& forall|k: int|
                #![trigger list[k]]
                0 <= k < list.len() ==> {
                    &&& reader::commit_at(files, step_rev(files, rev, k as nat)) == Some(list[k])
                    &&& !seen.contains(step_rev(files, rev, k as nat))
                    &&& (k + 1 < list.len() ==> list[k].parents.len() > 0)
                }
        }),
    decreases limit,
{
    let list = reader::first_parents(files, rev, seen, limit);
    if limit > 0 && !seen.contains(rev) {
        match reader::commit_at(files, rev) {
            None => {},
            Some(c) => {
                if c.parents.len() > 0 {
                    let next = c.parents[0];
                    let rest = reader::first_parents(
                        files,
                        next,
                        seen.push(rev),
                        (limit - 1) as nat,
                    );
                    lemma_walk(files, next, seen.push(rev), (limit - 1) as nat);
                    assert forall|k: int|
                        #![trigger list[k]]
                        0 <= k < list.len() implies {
                        &&& reader::commit_at(files, step_rev(files, rev, k as nat)) == Some(
                            list[k],
                        )
                        &&& !seen.contains(step_rev(files, rev, k as nat))
                        &&& (k + 1 < list.len() ==> list[k].parents.len() > 0)
                    } by {
                        if k > 0 {
                            assert(list[k] == rest[k - 1]);
                            lemma_step_shift(files, rev, c, (k - 1) as nat);
                            let here = step_rev(files, rev, k as nat);
                            if seen.contains(here) {
                                let j = choose|j: int| 0 <= j < seen.len() && seen[j] == here;
                                assert(seen.push(rev)[j] == here);
                            }
                        }
                    }
                }
            },
        }
    }
}

/// What a walk gives in its `k`-th step.
proof fn lemma_walk_at(files: FilesView, rev: Seq<char>, seen: Seq<Seq<char>>, limit: nat, k: int)
    requires
        0 <= k < reader::first_parents(files, rev, seen, limit).len(),
    ensures
        ({
            let list = reader::first_parents(files, rev, seen, limit);
            &&& list.len() <= limit
            &&& reader::commit_at(files, step_rev(files, rev, k as nat)) == Some(list[k])
            &&& !seen.contains(step_rev(files, rev, k as nat))
            &&& (k + 1 < list.len() ==> list[k].parents.len() > 0)
            &&& step_rev(files, rev, (k + 1) as nat) == list[k].parents[0]
        }),
{
    lemma_walk(files, rev, seen, limit);
    let here = reader::first_parents(files, rev, seen, limit)[k];
    assert(reader::commit_at(files, step_rev(files, rev, k as nat)) == Some(here));
}

/// No two steps of a walk look at one revision.
proof fn lemma_walk_distinct(
    files: FilesView,
    rev: Seq<char>,
    seen: Seq<Seq<char>>,
    limit: nat,
    i: int,
    j: int,
)
    requires
        0 <= i < j < reader::first_parents(files, rev, seen, limit).len(),
    ensures
        step_rev(files, rev, i as nat) != step_rev(files, rev, j as nat),
    decreases limit,
{
    let list = reader::first_parents(files, rev, seen, limit);
    assert(limit > 0 && !seen.contains(rev));
    assert(reader::commit_at(files, rev) is Some);
    let c = reader::commit_at(files, rev)->0;
    assert(c.parents.len() > 0) by {
        if c.parents.len() == 0 {
            assert(list.len() == 1);
        }
    }
    let next = c.parents[0];
    let more = seen.push(rev);
    let rest = reader::first_parents(files, next, more, (limit - 1) as nat);
    assert(list == seq![c] + rest);
    lemma_step_shift(files, rev, c, (j - 1) as nat);
    let later = step_rev(files, next, (j - 1) as nat);
    assert(step_rev(files, rev, j as nat) == later);
    if i == 0 {
        lemma_walk_at(files, next, more, (limit - 1) as nat, j - 1);
        assert(more[seen.len() as int] == rev);
    } else {
        lemma_step_shift(files, rev, c, (i - 1) as nat);
        lemma_walk_distinct(files, next, more, (limit - 1) as nat, i - 1, j - 1);
    }
}

/// The history has at most as many commits as were asked for, starts with the
/// commit that HEAD stands for, and goes on from each commit to its first parent.
pub proof fn law_history_follows_first_parents(files: FilesView, limit: nat, i: int)
    requires
        0 <= i < reader::history(files, limit).len(),
    ensures
        ({
            let list = reader::history(files, limit);
            &&& list.len() <= limit
            &&& reader::commit_at(files, reader::rev_target(files, "HEAD"@)->0) == Some(list[0])
            &&& i + 1 < list.len() ==> list[i].parents.len() > 0 && reader::commit_at(
                files,
                list[i].parents[0],
            ) == Some(list[i + 1])
        }),
{
    let rev = reader::rev_target(files, "HEAD"@)->0;
    let list = reader::history(files, limit);
    lemma_walk_at(files, rev, Seq::empty(), limit, 0);
    lemma_walk_at(files, rev, Seq::empty(), limit, i);
    if i + 1 < list.len() {
        lemma_walk_at(files, rev, Seq::empty(), limit, i + 1);
    }
}

/// The history looks at no revision twice, so that it ends also where the
/// parents run in a circle.
pub proof fn law_history_visits_no_revision_twice(files: FilesView, limit: nat, i: int, j: int)
    requires
        0 <= i < j < reader::history(files, limit).len(),
    ensures
        ({
            let list = reader::history(files, limit);
            let head = reader::rev_target(files, "HEAD"@)->0;
            &&& i > 0 ==> list[i - 1].parents[0] != list[j - 1].parents[0]
            &&& list[j - 1].parents[0] != head
        }),
{
    let rev = reader::rev_target(files, "HEAD"@)->0;
    let list = reader::history(files, limit);
    lemma_walk_distinct(files, rev, Seq::empty(), limit, i, j);
    lemma_walk_distinct(files, rev, Seq::empty(), limit, 0, j);
    lemma_walk_at(files, rev, Seq::empty(), limit, j - 1);
    if i > 0 {
        lemma_walk_at(files, rev, Seq::empty(), limit, i - 1);
    }
}

/// A walk with a lower limit is the start of the walk with a higher one.
proof fn lemma_walk_prefix(
    files: FilesView,
    rev: Seq<char>,
    seen: Seq<Seq<char>>,
    low: nat,
    high: nat,
)
    requires
        low <= high,
    ensures
        reader::first_parents(files, rev, seen, low) == reader::at_most(
            reader::first_parents(files, rev, seen, high),
            low,
        ),
    decreases low,
{
    let short = reader::first_parents(files, rev, seen, low);
    let long = reader::first_parents(files, rev, seen, high);
    if low == 0 {
        assert(long.take(0) =~= short);
        assert(long.len() == 0 ==> long =~= short);
    } else if !seen.contains(rev) {
        match reader::commit_at(files, rev) {
            None => {},
            Some(c) => {
                if c.parents.len() > 0 {
                    let next = c.parents[0];
                    let more = seen.push(rev);
                    lemma_walk_prefix(files, next, more, (low - 1) as nat, (high - 1) as nat);
                    let rest = reader::first_parents(files, next, more, (high - 1) as nat);
                    if rest.len() > low - 1 {
                        assert(long.take(low as int) =~= seq![c] + rest.take(low - 1));
                    }
                }
            },
        }
    }
}

/// A shorter history is the start of a longer one.
pub proof fn law_shorter_history_is_the_start(files: FilesView, low: nat, high: nat)
    requires
        low <= high,
    ensures
        reader::history(files, low) == reader::at_most(reader::history(files, high), low),
{
    match reader::rev_target(files, "HEAD"@) {
        None => {},
        Some(oid) => lemma_walk_prefix(files, oid, Seq::empty(), low, high),
    }
}

/// The history stops before its limit only where it cannot go on: at a commit
/// without parents, or where the next revision cannot be read or was met before.
pub proof fn law_history_stops_for_a_reason(files: FilesView, limit: nat)
    requires
        0 < reader::history(files, limit).len() < limit,
        reader::history(files, limit).last().parents.len() > 0,
    ensures
        ({
            let list = reader::history(files, limit);
            let next = list.last().parents[0];
            let head = reader::rev_target(files, "HEAD"@)->0;
            ||| reader::commit_at(files, next) is None
            ||| next == head
            ||| exists|k: int|
                0 <= k < list.len() - 1 && (#[trigger] list[k]).parents[0] == next
        }),
{
    let rev = reader::rev_target(files, "HEAD"@)->0;
    let list = reader::history(files, limit);
    lemma_stop(files, rev, Seq::empty(), limit);
    let n = list.len();
    let next = list.last().parents[0];
    if reader::commit_at(files, next) is Some && next != rev {
        let k = choose|k: int|
            0 <= k < n && #[trigger] step_rev(files, rev, k as nat) == next;
        assert(k > 0);
        lemma_walk_at(files, rev, Seq::empty(), limit, k - 1);
        assert(list[k - 1].parents[0] == next);
    }
}

/// Where a walk stops.
proof fn lemma_stop(files: FilesView, rev: Seq<char>, seen: Seq<Seq<char>>, limit: nat)
    requires
        0 < reader::first_parents(files, rev, seen, limit).len() < limit,
        reader::first_parents(files, rev, seen, limit).last().parents.len() > 0,
    ensures
        ({
            let list = reader::first_parents(files, rev, seen, limit);
            let next = list.last().parents[0];
            ||| reader::commit_at(files, next) is None
            ||| seen.contains(next)
            ||| exists|k: int|
                0 <= k < list.len() && #[trigger] step_rev(files, rev, k as nat) == next
        }),
    decreases limit,
{
    let list = reader::first_parents(files, rev, seen, limit);
    let c = reader::commit_at(files, rev)->0;
    let next = c.parents[0];
    let more = seen.push(rev);
    let rest = reader::first_parents(files, next, more, (limit - 1) as nat);
    if rest.len() == 0 {
        assert(list =~= seq![c]);
        if more.contains(next) {
            let j = choose|j: int| 0 <= j < more.len() && more[j] == next;
            if j < seen.len() {
                assert(seen[j] == next);
            } else {
                assert(step_rev(files, rev, 0) == next);
            }
        }
    } else {
        assert(list.last() == rest.last());
        lemma_stop(files, next, more, (limit - 1) as nat);
        let goal = rest.last().parents[0];
        if reader::commit_at(files, goal) is Some && !seen.contains(goal) {
            if more.contains(goal) {
                let j = choose|j: int| 0 <= j < more.len() && more[j] == goal;
                if j < seen.len() {
                    assert(seen[j] == goal);
                }
                assert(step_rev(files, rev, 0) == goal);
            } else {
                let k = choose|k: int|
                    0 <= k < rest.len() && #[trigger] step_rev(files, next, k as nat) == goal;
                lemma_step_shift(files, rev, c, k as nat);
                assert(step_rev(files, rev, (k + 1) as nat) == goal);
            }
        }
    }
}

/// Where all parents are ids in small letters, as Git writes them, no commit comes
/// twice in the history.
pub proof fn law_history_holds_no_commit_twice(files: FilesView, limit: nat, i: int, j: int)
    requires
        0 <= i < j < reader::history(files, limit).len(),
        forall|k: int|
            0 <= k < reader::history(files, limit).len() - 1 ==> refs::small_oid(
                (#[trigger] reader::history(files, limit)[k]).parents[0],
            ),
    ensures
        reader::history(files, limit)[i].id != reader::history(files, limit)[j].id,
{
    let rev = reader::rev_target(files, "HEAD"@)->0;
    lemma_walk_distinct(files, rev, Seq::empty(), limit, i, j);
    lemma_id_is_rev(files, limit, i);
    lemma_id_is_rev(files, limit, j);
}

proof fn lemma_id_is_rev(files: FilesView, limit: nat, k: int)
    requires
        0 <= k < reader::history(files, limit).len(),
        forall|k: int|
            0 <= k < reader::history(files, limit).len() - 1 ==> refs::small_oid(
                (#[trigger] reader::history(files, limit)[k]).parents[0],
            ),
    ensures
        reader::history(files, limit)[k].id == step_rev(
            files,
            reader::rev_target(files, "HEAD"@)->0,
            k as nat,
        ),
{
    let rev = reader::rev_target(files, "HEAD"@)->0;
    let list = reader::history(files, limit);
    lemma_walk_at(files, rev, Seq::empty(), limit, k);
    let here = step_rev(files, rev, k as nat);
    if k > 0 {
        lemma_walk_at(files, rev, Seq::empty(), limit, k - 1);
        assert(here == list[k - 1].parents[0]);
    }
    refs::law_revision_is_id_in_small_letters(files, "HEAD"@);
    assert(refs::small_oid(here));
}

/// The commits found by a search.
pub open spec fn found(files: FilesView, query: Seq<char>, limit: nat) -> Seq<CommitView> {
    reader::at_most(
        reader::matching(reader::history(files, (limit * 4) as nat), query),
        limit,
    )
}

/// True when a commit's message holds the query, whatever the case of its letters.
pub open spec fn holds(c: CommitView, query: Seq<char>) -> bool {
    text::occurs(text::lower(c.message), text::lower(query))
}

proof fn lemma_matching(list: Seq<CommitView>, query: Seq<char>)
    ensures
        forall|i: int|
            0 <= i < reader::matching(list, query).len() ==> holds(
                #[trigger] reader::matching(list, query)[i],
                query,
            ) && list.contains(reader::matching(list, query)[i]),
        forall|k: int|
            0 <= k < list.len() && holds(#[trigger] list[k], query) ==> reader::matching(
                list,
                query,
            ).contains(list[k]),
    decreases list.len(),
{
    if list.len() > 0 {
        let rest = list.drop_last();
        let some = reader::matching(rest, query);
        let all = reader::matching(list, query);
        lemma_matching(rest, query);
        assert forall|i: int| 0 <= i < all.len() implies holds(#[trigger] all[i], query)
            && list.contains(all[i]) by {
            if i < some.len() {
                assert(all[i] == some[i]);
                let k = choose|k: int| 0 <= k < rest.len() && rest[k] == some[i];
                assert(list[k] == all[i]);
            } else {
                assert(all[i] == list[list.len() - 1]);
            }
        }
        assert forall|k: int| 0 <= k < list.len() && holds(
            #[trigger] list[k],
            query,
        ) implies all.contains(list[k]) by {
            if k < rest.len() {
                assert(rest[k] == list[k]);
                let i = choose|i: int| 0 <= i < some.len() && some[i] == rest[k];
                assert(all[i] == list[k]);
            } else {
                assert(all[all.len() - 1] == list[k]);
            }
        }
    }
}

/// A search finds at most as many commits as were asked for, all of them from the
/// history and with the query in their message, and it leaves none out unless it
/// has found as many as it may.
pub proof fn law_search_finds_what_matches(
    files: FilesView,
    query: Seq<char>,
    limit: nat,
    c: CommitView,
)
    ensures
        found(files, query, limit).len() <= limit,
        found(files, query, limit).contains(c) ==> holds(c, query) && reader::history(
            files,
            (limit * 4) as nat,
        ).contains(c),
        holds(c, query) && reader::history(files, (limit * 4) as nat).contains(c) ==> found(
            files,
            query,
            limit,
        ).contains(c) || found(files, query, limit).len() == limit,
{
    let list = reader::history(files, (limit * 4) as nat);
    let all = reader::matching(list, query);
    let some = found(files, query, limit);
    lemma_matching(list, query);
    if some.contains(c) {
        let i = choose|i: int| 0 <= i < some.len() && some[i] == c;
        assert(all[i] == c);
    }
    if holds(c, query) && list.contains(c) {
        let k = choose|k: int| 0 <= k < list.len() && list[k] == c;
        assert(all.contains(list[k]));
    }
}

/// The summary shows at most as many branches and commits as it has room for.
pub proof fn law_summary_is_short(repo: RepoView)
    ensures
        summary::summary_branches(repo).len() <= summary::SUMMARY_BRANCHES,
        reader::history(repo.files, summary::SUMMARY_COMMITS as nat).len()
            <= summary::SUMMARY_COMMITS,
{
    match reader::rev_target(repo.files, "HEAD"@) {
        None => {},
        Some(oid) => lemma_walk(
            repo.files,
            oid,
            Seq::empty(),
            summary::SUMMARY_COMMITS as nat,
        ),
    }
}

}
