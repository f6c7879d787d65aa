//! Repositories joined with their language colors, gathered per account, and
//! the refetch cycle that publishes them.
use vstd::prelude::*;
use crate::colors::ColorTable;
use crate::gh::GithubApiError;

verus! {

/// The owner of a repository.
#[derive(Debug)]
pub struct Owner {
    pub login: String,
    pub avatar_url: String,
    pub html_url: String,
}

/// A repository as the API lists it; times are Unix seconds.
#[derive(Debug)]
pub struct Repo {
    pub name: String,
    pub node_id: String,
    pub html_url: String,
    pub description: Option<String>,
    pub language: Option<String>,
    pub created_at: i64,
    pub updated_at: i64,
    pub owner: Owner,
}

/// A repository with its language's display color, if one is known.
#[derive(Debug)]
pub struct RepoAndColor {
    pub repo: Repo,
    pub color: Option<String>,
}

/// The repositories of each account, in the order the accounts were asked for.
pub type Repos = Vec<(String, Vec<RepoAndColor>)>;

/// The color that a table gives a repository's language: none without a
/// language or for a language the table does not know.
pub open spec fn color_for(table: Map<Seq<char>, Seq<char>>, language: Option<String>) -> Option<Seq<char>> {
    match language {
        Some(l) => if table.contains_key(l@) {
            Some(table[l@])
        } else {
            None
        },
        None => None,
    }
}

/// Pairs each repository, in order, with its language's color.
pub fn join_colors(colors: &ColorTable, repos: Vec<Repo>) -> (r: Vec<RepoAndColor>)
    requires
        colors.wf(),
    ensures
        joined(r@, repos@, colors@),
{
    let ghost orig = repos@;
    let mut rest = repos;
    let mut out: Vec<RepoAndColor> = Vec::new();
    while rest.len() > 0
        invariant
            colors.wf(),
            out.len() + rest.len() == orig.len(),
            rest@ == orig.subrange(out.len() as int, orig.len() as int),
            forall|i: int| 0 <= i < out.len() ==> (#[trigger] out[i]).repo == orig[i]
                && out[i].color.deep_view() == color_for(colors@, orig[i].language),
        decreases rest.len(),
    {
        let repo = rest.remove(0);
        assert(repo == orig[out.len() as int]);
        let color = match &repo.language {
            Some(l) => colors.get(l),
            None => None,
        };
        out.push(RepoAndColor { repo, color });
        assert(rest@ =~= orig.subrange(out.len() as int, orig.len() as int));
    }
    out
}

/// An entry whose repository has no language, or one the table does not
/// know, has no color: no placeholder stands in for it.
pub proof fn lemma_unknown_language_has_no_color(
    out: Seq<RepoAndColor>,
    repos: Seq<Repo>,
    table: Map<Seq<char>, Seq<char>>,
)
    requires
        joined(out, repos, table),
    ensures
        forall|i: int| 0 <= i < out.len() && ((#[trigger] repos[i]).language.is_none()
            || !table.contains_key(repos[i].language.unwrap()@)) ==> out[i].color.is_none(),
{
    assert forall|i: int| 0 <= i < out.len() && ((#[trigger] repos[i]).language.is_none()
        || !table.contains_key(repos[i].language.unwrap()@)) implies out[i].color.is_none() by {
        assert(out[i].color.deep_view() == color_for(table, repos[i].language));
    }
}

/// The repositories of a successful result.
pub open spec fn repos_of(r: Result<Vec<Repo>, GithubApiError>) -> Seq<Repo> {
    match r {
        Ok(v) => v@,
        Err(_) => Seq::empty(),
    }
}

/// `out` pairs each of `repos`, in order, with its language's color in `table`.
pub open spec fn joined(out: Seq<RepoAndColor>, repos: Seq<Repo>, table: Map<Seq<char>, Seq<char>>) -> bool {
    &&& out.len() == repos.len()
    &&& forall|i: int| 0 <= i < out.len() ==> (#[trigger] out[i]).repo == repos[i]
        && out[i].color.deep_view() == color_for(table, repos[i].language)
}

/// The first error among per-account results, in account order.
pub open spec fn first_error(rs: Seq<Result<Vec<Repo>, GithubApiError>>) -> Option<GithubApiError>
    decreases rs.len(),
{
    if rs.len() == 0 {
        None
    } else {
        match rs[0] {
            Err(e) => Some(e),
            Ok(_) => first_error(rs.drop_first()),
        }
    }
}

/// Joins the outcome of one fetch cycle: the color table and each account's
/// repositories must all have arrived; otherwise the first error (the color
/// table's, then the accounts' in order) is the cycle's. On success each
/// account keeps its place and each repository its place and gets its color.
pub fn assemble(
    users: Vec<String>,
    colors: Result<ColorTable, GithubApiError>,
    fetched: Vec<Result<Vec<Repo>, GithubApiError>>,
) -> (r: Result<Repos, GithubApiError>)
    requires
        users.len() == fetched.len(),
        colors matches Ok(t) ==> t.wf(),
    ensures
        match colors {
            Err(e) => r == Err::<Repos, GithubApiError>(e),
            Ok(t) => match first_error(fetched@) {
                Some(e) => r == Err::<Repos, GithubApiError>(e),
                None => r matches Ok(v) && v.len() == users.len() && forall|a: int| 0 <= a < v.len() ==> {
                    &&& (#[trigger] v[a]).0 == users[a]
                    &&& fetched[a] is Ok
                    &&& joined(v[a].1@, repos_of(fetched[a]), t@)
                },
            },
        },
{
    let table = match colors {
        Err(e) => return Err(e),
        Ok(t) => t,
    };
    let ghost orig_users = users@;
    let ghost orig = fetched@;
    let mut names = users;
    let mut rest = fetched;
    let mut out: Repos = Vec::new();
    while rest.len() > 0
        invariant
            table.wf(),
            colors == Ok::<ColorTable, GithubApiError>(table),
            out.len() + rest.len() == orig.len(),
            names.len() == rest.len(),
            orig == fetched@,
            orig_users == users@,
            orig_users.len() == orig.len(),
            rest@ == orig.subrange(out.len() as int, orig.len() as int),
            names@ == orig_users.subrange(out.len() as int, orig.len() as int),
            first_error(orig) == first_error(rest@),
            forall|a: int| 0 <= a < out.len() ==> {
                &&& (#[trigger] out[a]).0 == orig_users[a]
                &&& orig[a] is Ok
                &&& joined(out[a].1@, repos_of(orig[a]), table@)
            },
        decreases rest.len(),
    {
        let ghost before = rest@;
        let user = names.remove(0);
        let result = rest.remove(0);
        assert(before[0] == result);
        assert(before.drop_first() =~= rest@);
        let ghost k = out.len() as int;
        assert(result == orig[k]);
        assert(rest@ =~= orig.subrange(k + 1, orig.len() as int));
        match result {
            Err(e) => {
                assert(first_error(before) == Some(e));
                return Err(e);
            },
            Ok(rs) => {
                let joined = join_colors(&table, rs);
                out.push((user, joined));
                assert(names@ =~= orig_users.subrange(out.len() as int, orig.len() as int));
            },
        }
    }
    Ok(out)
}

/// What has been published to the consumer so far.
pub enum LoadState {
    Loading,
    Loaded(Result<Repos, GithubApiError>),
}

/// The published state of a fetch cycle, keyed by a generation: each refetch
/// starts a new generation, and a result is published only if it belongs to
/// the current one.
pub struct RepoCycle {
    pub generation: u64,
    pub state: LoadState,
}

impl RepoCycle {
    /// The cycle after a refetch: a new generation, nothing loaded.
    pub open spec fn refetched(self) -> RepoCycle {
        RepoCycle { generation: (self.generation + 1) as u64, state: LoadState::Loading }
    }

    /// The cycle after the result of generation `g` arrives.
    pub open spec fn published(self, g: u64, result: Result<Repos, GithubApiError>) -> RepoCycle {
        if g == self.generation {
            RepoCycle { generation: self.generation, state: LoadState::Loaded(result) }
        } else {
            self
        }
    }

    /// The first generation, nothing loaded.
    pub fn new() -> (r: RepoCycle)
        ensures
            r.generation == 0,
            r.state == LoadState::Loading,
    {
        RepoCycle { generation: 0, state: LoadState::Loading }
    }

    /// Discards what was published and starts a new generation, whose token is
    /// returned.
    pub fn refetch(&mut self) -> (r: u64)
        requires
            old(self).generation < u64::MAX,
        ensures
            *final(self) == old(self).refetched(),
            r == final(self).generation,
    {
        self.generation = self.generation + 1;
        self.state = LoadState::Loading;
        self.generation
    }

    /// Publishes the result of generation `g` if it is the current one, and
    /// says whether it did; a stale result changes nothing.
    pub fn publish(&mut self, g: u64, result: Result<Repos, GithubApiError>) -> (r: bool)
        ensures
            *final(self) == old(self).published(g, result),
            r == (g == old(self).generation),
    {
        if g == self.generation {
            self.state = LoadState::Loaded(result);
            true
        } else {
            false
        }
    }
}

/// A refetch while generation `c.generation` is outstanding makes that
/// generation's result stale: whether it lands before or after the new
/// generation's result, only the new result is ever published.
pub proof fn lemma_stale_result_discarded(
    c: RepoCycle,
    stale: Result<Repos, GithubApiError>,
    fresh: Result<Repos, GithubApiError>,
)
    requires
        c.generation < u64::MAX,
    ensures
        c.refetched().published(c.generation, stale) == c.refetched(),
        c.refetched().published(c.generation, stale).published(c.refetched().generation, fresh).state
            == LoadState::Loaded(fresh),
        c.refetched().published(c.refetched().generation, fresh).published(c.generation, stale).state
            == LoadState::Loaded(fresh),
{
}

} // verus!
