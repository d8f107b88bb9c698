//! `stack move`: another place for one commit of the stack.
use crate::commands::reorder::{all_shas, same_texts};
use crate::error::{CliError, Failure};
use crate::local_commits::LocalCommit;
use crate::match_commit::resolve_commit;
use crate::sequence_editor;
use crate::text;
use vstd::prelude::*;

verus! {

/// Where a commit goes.
#[derive(Debug, Clone, Copy, PartialEq, Eq, Structural)]
pub enum Position {
    First,
    Last,
    Before,
    After,
}

/// A commit in its new order.
#[derive(Debug, Clone, PartialEq, Eq)]
pub struct OrderedCommit {
    pub sha: String,
    pub subject: String,
}

impl View for OrderedCommit {
    type V = (Seq<char>, Seq<char>);

    open spec fn view(&self) -> (Seq<char>, Seq<char>) {
        (self.sha@, self.subject@)
    }
}

/// How a move ended.
#[derive(Debug, Clone, PartialEq, Eq)]
pub enum Outcome {
    Moved { plan: Vec<OrderedCommit> },
    DryRun { plan: Vec<OrderedCommit> },
    AlreadyInPosition,
    EmptyStack,
}

/// What a move has to do.
#[derive(Debug, Clone, PartialEq, Eq)]
pub enum Step {
    /// Nothing more.
    Finished(Outcome),
    /// A rebase with this command as its editor.
    Rebase { plan: Vec<OrderedCommit>, editor: String },
}

impl Position {
    pub open spec fn word(self) -> Seq<char> {
        match self {
            Position::First => "first"@,
            Position::Last => "last"@,
            Position::Before => "before"@,
            Position::After => "after"@,
        }
    }

    /// Whether it is beside another commit.
    pub open spec fn beside(self) -> bool {
        self == Position::Before || self == Position::After
    }

    fn position_name(self) -> (r: &'static str)
        ensures
            r@ == self.word(),
    {
        match self {
            Position::First => "first",
            Position::Last => "last",
            Position::Before => "before",
            Position::After => "after",
        }
    }
}

/// The commit beside which another one goes, where the position asks for one.
pub open spec fn move_target(
    position: Position,
    target_prefix: Option<Seq<char>>,
    commit: LocalCommit,
    commits: Seq<LocalCommit>,
) -> Result<Option<LocalCommit>, Failure> {
    match target_prefix {
        None => if position.beside() {
            Err(Failure::InvalidState("'"@ + position.word() + "' requires a target commit"@))
        } else {
            Ok(None)
        },
        Some(prefix) => if !position.beside() {
            Err(
                Failure::InvalidState(
                    "'"@ + position.word() + "' does not accept a target commit"@,
                ),
            )
        } else {
            match crate::match_commit::resolved(prefix, commits) {
                Err(e) => Err(e),
                Ok(t) => if t.commit_sha@ == commit.commit_sha@ {
                    Err(Failure::InvalidState("commit and target are the same"@))
                } else {
                    Ok(Some(t))
                },
            }
        },
    }
}

/// Every commit but `sha`.
pub open spec fn other_than(sha: Seq<char>) -> spec_fn(LocalCommit) -> bool {
    |c: LocalCommit| c.commit_sha@ != sha
}

/// The commits other than `sha`.
pub open spec fn others(commits: Seq<LocalCommit>, sha: Seq<char>) -> Seq<LocalCommit> {
    commits.filter(other_than(sha))
}

/// The place of `sha`, or the number of commits.
pub open spec fn place_of(commits: Seq<LocalCommit>, sha: Seq<char>) -> nat
    decreases commits.len(),
{
    if commits.len() == 0 || commits[0].commit_sha@ == sha {
        0
    } else {
        1 + place_of(commits.drop_first(), sha)
    }
}

/// The place that a commit goes to among the others.
pub open spec fn new_place(
    position: Position,
    rest: Seq<LocalCommit>,
    target: Option<LocalCommit>,
) -> int {
    match position {
        Position::First => 0,
        Position::Last => rest.len() as int,
        Position::Before => place_of(rest, target->0.commit_sha@) as int,
        Position::After => place_of(rest, target->0.commit_sha@) as int + 1,
    }
}

/// The new order.
pub open spec fn moved(
    commits: Seq<LocalCommit>,
    commit: LocalCommit,
    position: Position,
    target: Option<LocalCommit>,
) -> Seq<LocalCommit> {
    let rest = others(commits, commit.commit_sha@);
    rest.insert(new_place(position, rest, target), commit)
}

/// The SHAs and the subjects of some commits.
pub open spec fn named(commits: Seq<LocalCommit>) -> Seq<(Seq<char>, Seq<char>)> {
    commits.map_values(|c: LocalCommit| (c.commit_sha@, c.title@))
}

proof fn lemma_place_in_others(commits: Seq<LocalCommit>, sha: Seq<char>, target: LocalCommit)
    requires
        commits.contains(target),
        target.commit_sha@ != sha,
    ensures
        place_of(others(commits, sha), target.commit_sha@) < others(commits, sha).len(),
{
    let p = other_than(sha);
    let i = choose|i: int| 0 <= i < commits.len() && commits[i] == target;
    commits.lemma_filter_contains(p, i);
    let rest = others(commits, sha);
    let j = choose|j: int| 0 <= j < rest.len() && rest[j] == target;
    lemma_place_of_member(rest, target.commit_sha@, j);
}

proof fn lemma_place_of_member(commits: Seq<LocalCommit>, sha: Seq<char>, j: int)
    requires
        0 <= j < commits.len(),
        commits[j].commit_sha@ == sha,
    ensures
        place_of(commits, sha) <= j,
    decreases commits.len(),
{
    if commits[0].commit_sha@ != sha {
        assert(commits.drop_first()[j - 1] == commits[j]);
        lemma_place_of_member(commits.drop_first(), sha, j - 1);
    }
}

/// The indices of the commits other than `sha`, in order.
fn other_indices(commits: &Vec<LocalCommit>, sha: &str) -> (r: Vec<usize>)
    ensures
        forall|i: int| 0 <= i < r.len() ==> #[trigger] r@[i] < commits.len(),
        crate::match_commit::at_indices(commits@, r@) == others(commits@, sha@),
{
    let ghost p = other_than(sha@);
    let mut out: Vec<usize> = Vec::new();
    let mut i: usize = 0;
    proof {
        reveal(Seq::filter);
        assert(commits@.take(0).filter(p) =~= seq![]);
        assert(crate::match_commit::at_indices(commits@, out@) =~= seq![]);
    }
    while i < commits.len()
        invariant
            i <= commits.len(),
            p == other_than(sha@),
            forall|j: int| 0 <= j < out.len() ==> #[trigger] out@[j] < commits.len(),
            crate::match_commit::at_indices(commits@, out@) == commits@.take(i as int).filter(p),
        decreases commits.len() - i,
    {
        let ghost before = out@;
        proof {
            reveal(Seq::filter);
            assert(commits@.take(i + 1).drop_last() =~= commits@.take(i as int));
        }
        if !text::same(commits[i].commit_sha.as_str(), sha) {
            out.push(i);
            proof {
                assert(crate::match_commit::at_indices(commits@, out@)
                    =~= crate::match_commit::at_indices(commits@, before).push(commits@[i as int]));
            }
        }
        i += 1;
    }
    proof {
        assert(commits@.take(i as int) =~= commits@);
    }
    out
}

fn find_place(commits: &Vec<LocalCommit>, ks: &Vec<usize>, sha: &str) -> (r: usize)
    requires
        forall|i: int| 0 <= i < ks.len() ==> #[trigger] ks@[i] < commits.len(),
    ensures
        r == place_of(crate::match_commit::at_indices(commits@, ks@), sha@),
        r <= ks.len(),
{
    let ghost all = crate::match_commit::at_indices(commits@, ks@);
    let mut i: usize = 0;
    proof {
        assert(all.skip(0) =~= all);
    }
    while i < ks.len()
        invariant
            i <= ks.len(),
            all == crate::match_commit::at_indices(commits@, ks@),
            forall|j: int| 0 <= j < ks.len() ==> #[trigger] ks@[j] < commits.len(),
            place_of(all, sha@) == i + place_of(all.skip(i as int), sha@),
        decreases ks.len() - i,
    {
        proof {
            assert(all.skip(i as int).drop_first() =~= all.skip(i + 1));
            assert(all.skip(i as int)[0] == commits@[ks@[i as int] as int]);
        }
        if text::same(commits[ks[i]].commit_sha.as_str(), sha) {
            return i;
        }
        i += 1;
    }
    i
}

fn ordered_at(commits: &Vec<LocalCommit>, ks: &Vec<usize>) -> (r: Vec<OrderedCommit>)
    requires
        forall|i: int| 0 <= i < ks.len() ==> #[trigger] ks@[i] < commits.len(),
    ensures
        r@.map_values(|d: OrderedCommit| d@) == named(
            crate::match_commit::at_indices(commits@, ks@),
        ),
{
    let ghost goal = named(crate::match_commit::at_indices(commits@, ks@));
    let mut out: Vec<OrderedCommit> = Vec::new();
    let mut i: usize = 0;
    while i < ks.len()
        invariant
            i <= ks.len(),
            out.len() == i,
            goal == named(crate::match_commit::at_indices(commits@, ks@)),
            forall|j: int| 0 <= j < ks.len() ==> #[trigger] ks@[j] < commits.len(),
            forall|j: int| 0 <= j < i ==> (#[trigger] out@[j])@ == goal[j],
        decreases ks.len() - i,
    {
        let c = &commits[ks[i]];
        out.push(OrderedCommit { sha: c.commit_sha.clone(), subject: c.title.clone() });
        i += 1;
    }
    proof {
        assert(out@.map_values(|d: OrderedCommit| d@) =~= goal);
    }
    out
}

fn find_target(
    position: Position,
    target_prefix: Option<&str>,
    k: usize,
    commits: &Vec<LocalCommit>,
) -> (r: Result<Option<usize>, CliError>)
    requires
        target_prefix matches Some(p) ==> crate::match_commit::reportable(p@, commits@),
        k < commits.len(),
    ensures
        match r {
            Ok(Some(t)) => t < commits.len() && move_target(
                position,
                text::opt_str(target_prefix),
                commits@[k as int],
                commits@,
            ) == Ok::<Option<LocalCommit>, Failure>(Some(commits@[t as int])),
            Ok(None) => move_target(
                position,
                text::opt_str(target_prefix),
                commits@[k as int],
                commits@,
            ) == Ok::<Option<LocalCommit>, Failure>(None),
            Err(e) => move_target(
                position,
                text::opt_str(target_prefix),
                commits@[k as int],
                commits@,
            ) == Err::<Option<LocalCommit>, Failure>(e@),
        },
{
    let beside: bool = position == Position::Before || position == Position::After;
    match target_prefix {
        None => {
            if !beside {
                return Ok(None);
            }
            let mut m = "'".to_owned();
            m.append(position.position_name());
            m.append("' requires a target commit");
            Err(CliError::InvalidState(m))
        },
        Some(prefix) => {
            if !beside {
                let mut m = "'".to_owned();
                m.append(position.position_name());
                m.append("' does not accept a target commit");
                return Err(CliError::InvalidState(m));
            }
            match resolve_commit(prefix, commits) {
                Err(e) => Err(e),
                Ok(t) => {
                    if text::same(commits[t].commit_sha.as_str(), commits[k].commit_sha.as_str()) {
                        return Err(
                            CliError::InvalidState("commit and target are the same".to_owned()),
                        );
                    }
                    Ok(Some(t))
                },
            }
        },
    }
}

/// What a move of the commit that a prefix means has to do.
pub fn plan_move(
    commit_prefix: &str,
    position: Position,
    target_prefix: Option<&str>,
    commits: &Vec<LocalCommit>,
    dry_run: bool,
    binary: &str,
) -> (r: Result<Step, CliError>)
    requires
        crate::match_commit::reportable(commit_prefix@, commits@),
        target_prefix matches Some(p) ==> crate::match_commit::reportable(p@, commits@),
    ensures
        if commits.len() == 0 {
            r matches Ok(Step::Finished(Outcome::EmptyStack))
        } else {
            match crate::match_commit::resolved(commit_prefix@, commits@) {
                Err(x) => r matches Err(e) && e@ == x,
                Ok(c) => match move_target(position, text::opt_str(target_prefix), c, commits@) {
                    Err(x) => r matches Err(e) && e@ == x,
                    Ok(t) => {
                        let order = moved(commits@, c, position, t);
                        if sequence_editor::shas_of(order) == sequence_editor::shas_of(commits@) {
                            r matches Ok(Step::Finished(Outcome::AlreadyInPosition))
                        } else if dry_run {
                            r matches Ok(Step::Finished(Outcome::DryRun { plan }))
                                && plan@.map_values(|d: OrderedCommit| d@) == named(order)
                        } else {
                            r matches Ok(Step::Rebase { plan, editor }) && plan@.map_values(
                                |d: OrderedCommit| d@,
                            ) == named(order) && editor@ == sequence_editor::shas_command(
                                binary@,
                                "reorder"@,
                                sequence_editor::shas_of(order),
                            )
                        }
                    },
                },
            }
        },
{
    if commits.len() == 0 {
        return Ok(Step::Finished(Outcome::EmptyStack));
    }
    let k = match resolve_commit(commit_prefix, commits) {
        Ok(k) => k,
        Err(e) => {
            return Err(e);
        },
    };
    let target = match find_target(position, target_prefix, k, commits) {
        Ok(t) => t,
        Err(e) => {
            return Err(e);
        },
    };
    let mut ks = other_indices(commits, commits[k].commit_sha.as_str());
    let ghost rest = crate::match_commit::at_indices(commits@, ks@);
    proof {
        assert(rest.len() == ks.len());
        if let Some(t) = target {
            assert(commits@.contains(commits@[t as int]));
            lemma_place_in_others(commits@, commits@[k as int].commit_sha@, commits@[t as int]);
        }
    }
    let place: usize = match (position, target) {
        (Position::First, _) => 0,
        (Position::Before, Some(t)) => find_place(commits, &ks, commits[t].commit_sha.as_str()),
        (Position::After, Some(t)) => find_place(commits, &ks, commits[t].commit_sha.as_str()) + 1,
        _ => ks.len(),
    };
    let ghost before = ks@;
    ks.insert(place, k);
    let ghost order = moved(
        commits@,
        commits@[k as int],
        position,
        match target {
            Some(t) => Some(commits@[t as int]),
            None => None,
        },
    );
    proof {
        assert(crate::match_commit::at_indices(commits@, ks@) =~= rest.insert(
            place as int,
            commits@[k as int],
        ));
        assert(crate::match_commit::at_indices(commits@, ks@) == order);
        assert forall|i: int| 0 <= i < ks.len() implies #[trigger] ks@[i] < commits.len() by {
            if i < place {
                assert(ks@[i] == before[i]);
            } else if i > place {
                assert(ks@[i] == before[i - 1]);
            }
        }
    }
    let shas = sequence_editor::shas_at(commits, &ks);
    if same_texts(&all_shas(commits), &shas) {
        return Ok(Step::Finished(Outcome::AlreadyInPosition));
    }
    let plan = ordered_at(commits, &ks);
    if dry_run {
        return Ok(Step::Finished(Outcome::DryRun { plan }));
    }
    let editor = sequence_editor::for_shas(binary, "reorder", &shas);
    Ok(Step::Rebase { plan, editor })
}

// ---------------------------------------------------------------------------
// Laws
// ---------------------------------------------------------------------------

/// A move puts the commit where it was asked to go, and leaves the others in
/// their order.
pub proof fn law_moved_commit_is_placed(
    commits: Seq<LocalCommit>,
    commit: LocalCommit,
    position: Position,
    target: Option<LocalCommit>,
)
    requires
        commits.contains(commit),
        position.beside() ==> (target matches Some(t) && commits.contains(t) && t.commit_sha@
            != commit.commit_sha@),
    ensures
        ({
            let rest = others(commits, commit.commit_sha@);
            let at = new_place(position, rest, target);
            let order = moved(commits, commit, position, target);
            &&& 0 <= at <= rest.len()
            &&& order[at] == commit
            &&& order.remove(at) == rest
            &&& position == Position::First ==> at == 0
            &&& position == Position::Last ==> at == order.len() - 1
            &&& position == Position::Before ==> order[at + 1].commit_sha@
                == target->0.commit_sha@
            &&& position == Position::After ==> order[at - 1].commit_sha@ == target->0.commit_sha@
        }),
{
    let rest = others(commits, commit.commit_sha@);
    if position.beside() {
        let t = target->0;
        lemma_place_in_others(commits, commit.commit_sha@, t);
        lemma_found_there(rest, t.commit_sha@);
    }
    let at = new_place(position, rest, target);
    assert(moved(commits, commit, position, target).remove(at) =~= rest);
}

proof fn lemma_found_there(commits: Seq<LocalCommit>, sha: Seq<char>)
    ensures
        place_of(commits, sha) <= commits.len(),
        place_of(commits, sha) < commits.len() ==> commits[place_of(commits, sha) as int].commit_sha@
            == sha,
    decreases commits.len(),
{
    if commits.len() > 0 && commits[0].commit_sha@ != sha {
        lemma_found_there(commits.drop_first(), sha);
        let k = place_of(commits.drop_first(), sha) as int;
        if k < commits.len() - 1 {
            assert(commits.drop_first()[k] == commits[k + 1]);
        }
    }
}

/// A move takes one commit out and puts it in front of all others, behind all of
/// them, or directly before or after the one that is named. The others keep
/// their order.
pub proof fn law_move_reads(
    commits: Seq<LocalCommit>,
    commit: LocalCommit,
    target: Option<LocalCommit>,
    k: int,
)
    ensures
        ({
            let rest = commits.filter(|c: LocalCommit| c.commit_sha@ != commit.commit_sha@);
            &&& moved(commits, commit, Position::First, target) == seq![commit] + rest
            &&& moved(commits, commit, Position::Last, target) == rest + seq![commit]
            &&& target is Some && 0 <= k < rest.len() && rest[k].commit_sha@
                == target->0.commit_sha@ && (forall|j: int|
                0 <= j < k ==> (#[trigger] rest[j]).commit_sha@ != target->0.commit_sha@) ==> {
                &&& moved(commits, commit, Position::Before, target) == rest.take(k) + seq![commit]
                    + rest.skip(k)
                &&& moved(commits, commit, Position::After, target) == rest.take(k + 1)
                    + seq![commit] + rest.skip(k + 1)
            }
        }),
{
    let f = |c: LocalCommit| c.commit_sha@ != commit.commit_sha@;
    let rest = commits.filter(f);
    assert(other_than(commit.commit_sha@) =~= f);
    assert(rest.insert(0, commit) =~= seq![commit] + rest);
    assert(rest.insert(rest.len() as int, commit) =~= rest + seq![commit]);
    if target is Some && 0 <= k < rest.len() && rest[k].commit_sha@ == target->0.commit_sha@ && (
    forall|j: int| 0 <= j < k ==> (#[trigger] rest[j]).commit_sha@ != target->0.commit_sha@) {
        lemma_place_is(rest, target->0.commit_sha@, k);
        assert(rest.insert(k, commit) =~= rest.take(k) + seq![commit] + rest.skip(k));
        assert(rest.insert(k + 1, commit) =~= rest.take(k + 1) + seq![commit] + rest.skip(k + 1));
    }
}

proof fn lemma_place_is(commits: Seq<LocalCommit>, sha: Seq<char>, k: int)
    requires
        0 <= k < commits.len(),
        commits[k].commit_sha@ == sha,
        forall|j: int| 0 <= j < k ==> (#[trigger] commits[j]).commit_sha@ != sha,
    ensures
        place_of(commits, sha) == k,
    decreases commits.len(),
{
    if k > 0 {
        assert(commits[0].commit_sha@ != sha);
        let t = commits.drop_first();
        assert forall|j: int| 0 <= j < k - 1 implies (#[trigger] t[j]).commit_sha@ != sha by {
            assert(t[j] == commits[j + 1]);
        }
        lemma_place_is(t, sha, k - 1);
    }
}

/// A target is named exactly where the commit goes beside one, and it is another
/// commit of the stack.
pub proof fn law_target_fits_the_position(
    position: Position,
    prefix: Seq<char>,
    commit: LocalCommit,
    commits: Seq<LocalCommit>,
)
    ensures
        move_target(Position::First, None, commit, commits) == Ok::<Option<LocalCommit>, Failure>(
            None,
        ),
        move_target(Position::Last, None, commit, commits) == Ok::<Option<LocalCommit>, Failure>(
            None,
        ),
        move_target(Position::Before, None, commit, commits) == Err::<Option<LocalCommit>, Failure>(
            Failure::InvalidState("'"@ + "before"@ + "' requires a target commit"@),
        ),
        move_target(Position::After, None, commit, commits) == Err::<Option<LocalCommit>, Failure>(
            Failure::InvalidState("'"@ + "after"@ + "' requires a target commit"@),
        ),
        move_target(Position::First, Some(prefix), commit, commits) == Err::<
            Option<LocalCommit>,
            Failure,
        >(Failure::InvalidState("'"@ + "first"@ + "' does not accept a target commit"@)),
        move_target(Position::Last, Some(prefix), commit, commits) == Err::<
            Option<LocalCommit>,
            Failure,
        >(Failure::InvalidState("'"@ + "last"@ + "' does not accept a target commit"@)),
        position == Position::Before || position == Position::After ==> {
            let found = crate::match_commit::resolved(prefix, commits);
            let r = move_target(position, Some(prefix), commit, commits);
            &&& found is Err ==> r == Err::<Option<LocalCommit>, Failure>(found->Err_0)
            &&& found is Ok && found->Ok_0.commit_sha@ == commit.commit_sha@ ==> r is Err
            &&& found is Ok && found->Ok_0.commit_sha@ != commit.commit_sha@ ==> r == Ok::<
                Option<LocalCommit>,
                Failure,
            >(Some(found->Ok_0))
        },
{
}

/// A commit is shown by its SHA and its title.
pub proof fn law_plan_names_its_commits(commits: Seq<LocalCommit>, i: int)
    requires
        0 <= i < commits.len(),
    ensures
        named(commits).len() == commits.len(),
        named(commits)[i].0 == commits[i].commit_sha@,
        named(commits)[i].1 == commits[i].title@,
{
}

/// A move lays the stack out with the commit that the prefix names in its new
/// place, and does nothing exactly where the order stays the same.
pub proof fn law_move_places_the_named_commit(
    prefix: &str,
    position: Position,
    target: Option<&str>,
    commits: &Vec<LocalCommit>,
    dry_run: bool,
    binary: &str,
    r: Result<Step, CliError>,
    c: LocalCommit,
    t: Option<LocalCommit>,
)
    requires
        call_ensures(plan_move, (prefix, position, target, commits, dry_run, binary), r),
        commits@.len() > 0,
        crate::match_commit::resolved(prefix@, commits@) == Ok::<LocalCommit, Failure>(c),
        move_target(position, text::opt_str(target), c, commits@) == Ok::<
            Option<LocalCommit>,
            Failure,
        >(t),
    ensures
        r is Ok,
        ({
            let order = moved(commits@, c, position, t);
            let stays = order.map_values(|x: LocalCommit| x.commit_sha@) == commits@.map_values(
                |x: LocalCommit| x.commit_sha@,
            );
            let plan = if dry_run {
                r->Ok_0->Finished_0->DryRun_plan@
            } else {
                r->Ok_0->Rebase_plan@
            };
            &&& stays <==> r->Ok_0 == Step::Finished(Outcome::AlreadyInPosition)
            &&& !stays && dry_run ==> r->Ok_0 is Finished && r->Ok_0->Finished_0 is DryRun
            &&& !stays && !dry_run ==> r->Ok_0 is Rebase && r->Ok_0->editor@ == crate::git::quoted(
                binary@,
            ) + " _internal rebase-todo-rewrite --action "@ + "reorder"@ + " --shas "@
                + crate::git::quoted(
                text::join(order.map_values(|x: LocalCommit| x.commit_sha@), ","@),
            )
            &&& !stays ==> plan.len() == order.len() && forall|i: int|
                0 <= i < plan.len() ==> (#[trigger] plan[i]).sha@ == order[i].commit_sha@
                    && plan[i].subject@ == order[i].title@
        }),
{
    let order = moved(commits@, c, position, t);
    let a = sequence_editor::shas_of(order);
    let b = sequence_editor::shas_of(commits@);
    assert(a =~= order.map_values(|x: LocalCommit| x.commit_sha@));
    assert(b =~= commits@.map_values(|x: LocalCommit| x.commit_sha@));
    if a != b {
        let plan = if dry_run {
            r->Ok_0->Finished_0->DryRun_plan@
        } else {
            r->Ok_0->Rebase_plan@
        };
        let views = plan.map_values(|d: OrderedCommit| d@);
        assert(views == named(order));
        assert(views.len() == plan.len());
        assert forall|i: int| 0 <= i < plan.len() implies (#[trigger] plan[i]).sha@
            == order[i].commit_sha@ && plan[i].subject@ == order[i].title@ by {
            assert(views[i] == plan[i]@);
            law_plan_names_its_commits(order, i);
        }
        sequence_editor::law_editor_command_reads(binary@, "reorder"@, a, seq![], seq![], seq![]);
    }
}

} // verus!
