//! The lines that tell the user why a stack was rebased or not.
use crate::approvals::{RebaseDecision, RebaseReason};
use crate::pull::{Pull, field_or};
use crate::text;
use vstd::prelude::*;

verus! {

/// The numbers of some pull requests as `#1`, `#2`, those without one left out.
pub open spec fn number_texts(pulls: Seq<Pull>) -> Seq<Seq<char>>
    decreases pulls.len(),
{
    if pulls.len() == 0 {
        seq![]
    } else {
        let before = number_texts(pulls.drop_last());
        match pulls.last().number {
            Some(n) => before.push("#"@ + text::decimal(n as nat)),
            None => before,
        }
    }
}

/// The numbers of some pull requests, as a list.
pub open spec fn numbers_csv(pulls: Seq<Pull>) -> Seq<char> {
    text::join(number_texts(pulls), ", "@)
}

fn pull_numbers_csv(pulls: &Vec<Pull>) -> (r: String)
    ensures
        r@ == numbers_csv(pulls@),
{
    let mut parts: Vec<String> = Vec::new();
    let mut i: usize = 0;
    proof {
        assert(pulls@.take(0) =~= seq![]);
        assert(text::texts(parts@) =~= seq![]);
    }
    while i < pulls.len()
        invariant
            i <= pulls.len(),
            text::texts(parts@) == number_texts(pulls@.take(i as int)),
        decreases pulls.len() - i,
    {
        let ghost before = text::texts(parts@);
        proof {
            assert(pulls@.take(i + 1).drop_last() =~= pulls@.take(i as int));
        }
        if let Some(n) = pulls[i].number {
            let mut t = "#".to_owned();
            t.append(text::decimal_of(n).as_str());
            parts.push(t);
            proof {
                assert(text::texts(parts@) =~= before.push("#"@ + text::decimal(n as nat)));
            }
        }
        i += 1;
    }
    proof {
        assert(pulls@.take(i as int) =~= pulls@);
    }
    text::join_with(&parts, ", ")
}

/// The line after a rebase.
pub open spec fn performed_line(
    dest_branch: Seq<char>,
    remote: Seq<char>,
    base_branch: Seq<char>,
    merged_count: nat,
    reason: RebaseReason,
    approved: Seq<Pull>,
) -> Seq<char> {
    "branch `"@ + dest_branch + "` rebased on `"@ + remote + "/"@ + base_branch + "`"@ + (if merged_count
        > 0 {
        " (dropped "@ + text::decimal(merged_count) + " merged commit(s))"@
    } else {
        seq![]
    }) + (match reason {
        RebaseReason::ConflictOverride => " (bottom PR has conflicts; approvals on PR(s) "@
            + numbers_csv(approved) + " may be dismissed)"@,
        RebaseReason::Forced => " (--force-rebase; approvals may be dismissed)"@,
        _ => seq![],
    })
}

/// The line after a rebase. `merged_count` is the number of commits that it
/// dropped because they were merged.
pub fn rebase_performed(
    dest_branch: &str,
    remote: &str,
    base_branch: &str,
    merged_count: usize,
    decision: &RebaseDecision,
) -> (r: String)
    ensures
        r@ == performed_line(
            dest_branch@,
            remote@,
            base_branch@,
            merged_count as nat,
            decision.reason,
            decision.approved_pulls@,
        ),
{
    let mut dropped = String::new();
    if merged_count > 0 {
        dropped.append(" (dropped ");
        dropped.append(text::decimal_of(merged_count as u64).as_str());
        dropped.append(" merged commit(s))");
        proof {
            assert(dropped@ =~= " (dropped "@ + text::decimal(merged_count as nat)
                + " merged commit(s))"@);
        }
    }
    let mut why = String::new();
    match decision.reason {
        RebaseReason::ConflictOverride => {
            why.append(" (bottom PR has conflicts; approvals on PR(s) ");
            why.append(pull_numbers_csv(&decision.approved_pulls).as_str());
            why.append(" may be dismissed)");
            proof {
                assert(why@ =~= " (bottom PR has conflicts; approvals on PR(s) "@ + numbers_csv(
                    decision.approved_pulls@,
                ) + " may be dismissed)"@);
            }
        },
        RebaseReason::Forced => {
            why = " (--force-rebase; approvals may be dismissed)".to_owned();
        },
        _ => {},
    }
    let mut line = "branch `".to_owned();
    line.append(dest_branch);
    line.append("` rebased on `");
    line.append(remote);
    line.append("/");
    line.append(base_branch);
    line.append("`");
    line.append(dropped.as_str());
    line.append(why.as_str());
    line
}

/// The ending of a plural.
pub open spec fn plural_s(n: nat) -> Seq<char> {
    if n == 1 {
        ""@
    } else {
        "s"@
    }
}

/// The line where a flag skips the rebase.
pub open spec fn explicit_skip_line(dest_branch: Seq<char>) -> Seq<char> {
    "branch `"@ + dest_branch + "` rebase skipped (--skip-rebase)"@
}

/// The line of a skipped rebase, where it was skipped.
pub open spec fn skipped_line(dest_branch: Seq<char>, reason: RebaseReason, n: nat) -> Option<
    Seq<char>,
> {
    match reason {
        RebaseReason::ExplicitSkip => Some(explicit_skip_line(dest_branch)),
        RebaseReason::SkippedForApprovals => Some(
            "branch `"@ + dest_branch + "` rebase skipped: "@ + text::decimal(n) + " PR"@ + plural_s(n)
                + " "@ + (if n == 1 {
                "has"@
            } else {
                "have"@
            }) + " approvals (use --force-rebase to rebase anyway)"@,
        ),
        _ => None,
    }
}

fn explicit_skip(dest_branch: &str) -> (r: String)
    ensures
        r@ == explicit_skip_line(dest_branch@),
{
    let mut line = "branch `".to_owned();
    line.append(dest_branch);
    line.append("` rebase skipped (--skip-rebase)");
    line
}

/// The line of a skipped rebase. There is none where the rebase happened.
pub fn rebase_skipped(dest_branch: &str, decision: &RebaseDecision) -> (r: Option<String>)
    ensures
        text::opt_text(r) == skipped_line(
            dest_branch@,
            decision.reason,
            decision.approved_pulls@.len(),
        ),
{
    match decision.reason {
        RebaseReason::ExplicitSkip => Some(explicit_skip(dest_branch)),
        RebaseReason::SkippedForApprovals => {
            let n: usize = decision.approved_pulls.len();
            let plural = if n == 1 {
                ""
            } else {
                "s"
            };
            let verb = if n == 1 {
                "has"
            } else {
                "have"
            };
            let mut line = "branch `".to_owned();
            line.append(dest_branch);
            line.append("` rebase skipped: ");
            line.append(text::decimal_of(n as u64).as_str());
            line.append(" PR");
            line.append(plural);
            line.append(" ");
            line.append(verb);
            line.append(" approvals (use --force-rebase to rebase anyway)");
            Some(line)
        },
        _ => None,
    }
}

/// The line of an approved pull request.
pub open spec fn approved_line(p: Pull) -> Seq<char> {
    "  - PR #"@ + text::decimal(
        (match p.number {
            Some(n) => n,
            None => 0u64,
        }) as nat,
    ) + " — \""@ + crate::pull::text_or(p.title, ""@) + "\""@
}

/// The lines of a dry run.
pub open spec fn dry_run_lines(
    dest_branch: Seq<char>,
    remote: Seq<char>,
    base_branch: Seq<char>,
    commits_behind: nat,
    reason: RebaseReason,
    approved: Seq<Pull>,
) -> Seq<Seq<char>> {
    match reason {
        RebaseReason::ExplicitSkip => seq![explicit_skip_line(dest_branch)],
        RebaseReason::SkippedForApprovals => seq![
            "[orange]branch `"@ + dest_branch
                + "` rebase would be skipped: approvals detected on "@ + text::decimal(approved.len())
                + " PR"@ + plural_s(approved.len()) + "[/]"@,
        ] + approved.map_values(|p: Pull| approved_line(p)) + seq![
            "  Use --force-rebase to rebase anyway."@,
        ],
        RebaseReason::ConflictOverride => seq![
            "[orange]branch `"@ + dest_branch + "` would be rebased on `"@ + remote + "/"@
                + base_branch + "` (bottom PR has conflicts; approvals on PR(s) "@ + numbers_csv(
                approved,
            ) + " would be dismissed)[/]"@,
        ],
        RebaseReason::Forced => seq![
            "[orange]branch `"@ + dest_branch + "` would be rebased on `"@ + remote + "/"@
                + base_branch + "` (--force-rebase; approvals may be dismissed)[/]"@,
        ],
        RebaseReason::NoApprovals => if commits_behind == 0 {
            seq![]
        } else {
            seq![
                "[orange]branch `"@ + dest_branch + "` is behind `"@ + remote + "/"@ + base_branch
                    + "` by "@ + text::decimal(commits_behind) + " "@ + (if commits_behind == 1 {
                    "commit"@
                } else {
                    "commits"@
                }) + ", commit SHAs will differ after rebase[/]"@,
            ]
        },
    }
}

fn format_approved(p: &Pull) -> (r: String)
    ensures
        r@ == approved_line(*p),
{
    let number: u64 = match p.number {
        Some(n) => n,
        None => 0,
    };
    let mut line = "  - PR #".to_owned();
    line.append(text::decimal_of(number).as_str());
    line.append(" — \"");
    line.append(field_or(&p.title, "").as_str());
    line.append("\"");
    line
}

fn one_line(s: String) -> (r: Vec<String>)
    ensures
        text::texts(r@) == seq![s@],
{
    let mut out: Vec<String> = Vec::new();
    out.push(s);
    proof {
        assert(text::texts(out@) =~= seq![s@]);
    }
    out
}

/// The start of a line about a rebase that would happen.
fn would_rebase(dest_branch: &str, remote: &str, base_branch: &str) -> (r: String)
    ensures
        r@ == "[orange]branch `"@ + dest_branch@ + "` would be rebased on `"@ + remote@ + "/"@
            + base_branch@,
{
    let mut line = "[orange]branch `".to_owned();
    line.append(dest_branch);
    line.append("` would be rebased on `");
    line.append(remote);
    line.append("/");
    line.append(base_branch);
    line
}

/// The lines of a dry run, in the order in which they are printed. There are
/// none where the branch is up to date and nothing else has to be said.
pub fn rebase_dry_run(
    dest_branch: &str,
    remote: &str,
    base_branch: &str,
    commits_behind: u32,
    decision: &RebaseDecision,
) -> (r: Vec<String>)
    ensures
        text::texts(r@) == dry_run_lines(
            dest_branch@,
            remote@,
            base_branch@,
            commits_behind as nat,
            decision.reason,
            decision.approved_pulls@,
        ),
{
    let approved = &decision.approved_pulls;
    match decision.reason {
        RebaseReason::ExplicitSkip => one_line(explicit_skip(dest_branch)),
        RebaseReason::SkippedForApprovals => {
            let n: usize = approved.len();
            let plural = if n == 1 {
                ""
            } else {
                "s"
            };
            let mut head = "[orange]branch `".to_owned();
            head.append(dest_branch);
            head.append("` rebase would be skipped: approvals detected on ");
            head.append(text::decimal_of(n as u64).as_str());
            head.append(" PR");
            head.append(plural);
            head.append("[/]");
            let ghost first = head@;
            let ghost each = approved@.map_values(|p: Pull| approved_line(p));
            let mut lines = one_line(head);
            let mut i: usize = 0;
            proof {
                assert(text::texts(lines@) =~= seq![first] + each.take(0));
            }
            while i < approved.len()
                invariant
                    i <= approved.len(),
                    each == approved@.map_values(|p: Pull| approved_line(p)),
                    text::texts(lines@) == seq![first] + each.take(i as int),
                decreases approved.len() - i,
            {
                let ghost before = text::texts(lines@);
                lines.push(format_approved(&approved[i]));
                proof {
                    assert(text::texts(lines@) =~= before.push(each[i as int]));
                    assert(before.push(each[i as int]) =~= seq![first] + each.take(i + 1));
                }
                i += 1;
            }
            let ghost before = text::texts(lines@);
            lines.push("  Use --force-rebase to rebase anyway.".to_owned());
            proof {
                assert(each.take(i as int) =~= each);
                assert(text::texts(lines@) =~= before.push("  Use --force-rebase to rebase anyway."@));
                assert(text::texts(lines@) =~= seq![first] + each + seq![
                    "  Use --force-rebase to rebase anyway."@,
                ]);
            }
            lines
        },
        RebaseReason::ConflictOverride => {
            let mut line = would_rebase(dest_branch, remote, base_branch);
            line.append("` (bottom PR has conflicts; approvals on PR(s) ");
            line.append(pull_numbers_csv(approved).as_str());
            line.append(" would be dismissed)[/]");
            one_line(line)
        },
        RebaseReason::Forced => {
            let mut line = would_rebase(dest_branch, remote, base_branch);
            line.append("` (--force-rebase; approvals may be dismissed)[/]");
            one_line(line)
        },
        RebaseReason::NoApprovals => {
            if commits_behind == 0 {
                let none: Vec<String> = Vec::new();
                proof {
                    assert(text::texts(none@) =~= seq![]);
                }
                return none;
            }
            let plural = if commits_behind == 1 {
                "commit"
            } else {
                "commits"
            };
            let mut line = "[orange]branch `".to_owned();
            line.append(dest_branch);
            line.append("` is behind `");
            line.append(remote);
            line.append("/");
            line.append(base_branch);
            line.append("` by ");
            line.append(text::decimal_of(commits_behind as u64).as_str());
            line.append(" ");
            line.append(plural);
            line.append(", commit SHAs will differ after rebase[/]");
            one_line(line)
        },
    }
}

/// After a decision exactly one of the two lines is there to print: a skipped
/// rebase is explained, and one that happened is not called skipped.
pub proof fn law_skips_are_explained(dest_branch: Seq<char>, reason: RebaseReason, n: nat)
    ensures
        (skipped_line(dest_branch, reason, n) is Some) == !crate::approvals::rebases(reason),
{
}

/// The approved pull requests are named by their numbers, in their order.
pub proof fn law_approved_are_named_by_number(pulls: Seq<Pull>)
    ensures
        number_texts(pulls) == pulls.filter(|p: Pull| p.number is Some).map_values(
            |p: Pull| "#"@ + text::decimal(p.number->0 as nat),
        ),
    decreases pulls.len(),
{
    reveal(Seq::filter);
    let f = |p: Pull| p.number is Some;
    let g = |p: Pull| "#"@ + text::decimal(p.number->0 as nat);
    if pulls.len() > 0 {
        let t = pulls.drop_last();
        law_approved_are_named_by_number(t);
        if f(pulls.last()) {
            assert(pulls.filter(f).map_values(g) =~= t.filter(f).map_values(g).push(
                g(pulls.last()),
            ));
        }
    } else {
        assert(pulls.filter(f).map_values(g) =~= seq![]);
    }
}

/// A rebase that was made is reported with the branch and the trunk, the merged
/// commits that it dropped, and whether it may cost approvals.
pub proof fn law_rebase_report_reads(
    branch: Seq<char>,
    remote: Seq<char>,
    base: Seq<char>,
    merged: nat,
    approved: Seq<Pull>,
)
    ensures
        ({
            let start = "branch `"@ + branch + "` rebased on `"@ + remote + "/"@ + base + "`"@;
            let dropped = " (dropped "@ + text::decimal(merged) + " merged commit(s))"@;
            &&& performed_line(branch, remote, base, 0, RebaseReason::NoApprovals, approved) == start
            &&& merged > 0 ==> performed_line(
                branch,
                remote,
                base,
                merged,
                RebaseReason::NoApprovals,
                approved,
            ) == start + dropped
            &&& performed_line(branch, remote, base, 0, RebaseReason::Forced, approved) == start
                + " (--force-rebase; approvals may be dismissed)"@
            &&& merged > 0 ==> performed_line(
                branch,
                remote,
                base,
                merged,
                RebaseReason::Forced,
                approved,
            ) == start + dropped + " (--force-rebase; approvals may be dismissed)"@
            &&& performed_line(branch, remote, base, 0, RebaseReason::ConflictOverride, approved)
                == start + (" (bottom PR has conflicts; approvals on PR(s) "@ + text::join(
                number_texts(approved),
                ", "@,
            ) + " may be dismissed)"@)
        }),
{
    let start = "branch `"@ + branch + "` rebased on `"@ + remote + "/"@ + base + "`"@;
    let dropped = " (dropped "@ + text::decimal(merged) + " merged commit(s))"@;
    let none = Seq::<char>::empty();
    assert(start + none =~= start);
    assert(start + dropped + none =~= start + dropped);
    assert(performed_line(branch, remote, base, 0, RebaseReason::NoApprovals, approved)
        =~= start);
    assert(performed_line(branch, remote, base, 0, RebaseReason::Forced, approved) =~= start
        + " (--force-rebase; approvals may be dismissed)"@);
}

/// A dry run says nothing of a rebase that changes nothing, names every approved
/// pull request that keeps the stack from being rebased, and otherwise says why
/// the stack would move.
pub proof fn law_dry_run_explains_the_rebase(
    branch: Seq<char>,
    remote: Seq<char>,
    base: Seq<char>,
    behind: nat,
    approved: Seq<Pull>,
)
    ensures
        dry_run_lines(branch, remote, base, 0, RebaseReason::NoApprovals, approved).len() == 0,
        behind > 0 ==> dry_run_lines(
            branch,
            remote,
            base,
            behind,
            RebaseReason::NoApprovals,
            approved,
        ) == seq![
            "[orange]branch `"@ + branch + "` is behind `"@ + remote + "/"@ + base + "` by "@
                + text::decimal(behind) + " "@ + (if behind == 1 {
                "commit"@
            } else {
                "commits"@
            }) + ", commit SHAs will differ after rebase[/]"@,
        ],
        dry_run_lines(branch, remote, base, behind, RebaseReason::ExplicitSkip, approved) == seq![
            "branch `"@ + branch + "` rebase skipped (--skip-rebase)"@,
        ],
        dry_run_lines(branch, remote, base, behind, RebaseReason::Forced, approved) == seq![
            "[orange]branch `"@ + branch + "` would be rebased on `"@ + remote + "/"@ + base
                + "` (--force-rebase; approvals may be dismissed)[/]"@,
        ],
        dry_run_lines(branch, remote, base, behind, RebaseReason::ConflictOverride, approved)
            == seq![
            "[orange]branch `"@ + branch + "` would be rebased on `"@ + remote + "/"@ + base
                + "` (bottom PR has conflicts; approvals on PR(s) "@ + text::join(
                number_texts(approved),
                ", "@,
            ) + " would be dismissed)[/]"@,
        ],
        ({
            let lines = dry_run_lines(
                branch,
                remote,
                base,
                behind,
                RebaseReason::SkippedForApprovals,
                approved,
            );
            &&& lines.len() == approved.len() + 2
            &&& lines[0] == "[orange]branch `"@ + branch
                + "` rebase would be skipped: approvals detected on "@ + text::decimal(
                approved.len(),
            ) + " PR"@ + (if approved.len() == 1 {
                ""@
            } else {
                "s"@
            }) + "[/]"@
            &&& forall|i: int|
                0 <= i < approved.len() && (#[trigger] approved[i]).number is Some
                    && approved[i].title is Some ==> lines[i + 1] == "  - PR #"@ + text::decimal(
                    approved[i].number->0 as nat,
                ) + " — \""@ + approved[i].title->0@ + "\""@
            &&& lines.last() == "  Use --force-rebase to rebase anyway."@
        }),
{
}

/// A rebase that was skipped is reported with the number of pull requests that
/// are approved.
pub proof fn law_skip_report_reads(branch: Seq<char>, n: nat)
    ensures
        skipped_line(branch, RebaseReason::ExplicitSkip, n) == Some(
            "branch `"@ + branch + "` rebase skipped (--skip-rebase)"@,
        ),
        skipped_line(branch, RebaseReason::SkippedForApprovals, 1) == Some(
            "branch `"@ + branch + "` rebase skipped: "@ + text::decimal(1) + " PR"@ + ""@ + " "@
                + "has"@ + " approvals (use --force-rebase to rebase anyway)"@,
        ),
        n != 1 ==> skipped_line(branch, RebaseReason::SkippedForApprovals, n) == Some(
            "branch `"@ + branch + "` rebase skipped: "@ + text::decimal(n) + " PR"@ + "s"@ + " "@
                + "have"@ + " approvals (use --force-rebase to rebase anyway)"@,
        ),
        skipped_line(branch, RebaseReason::Forced, n) is None,
        skipped_line(branch, RebaseReason::NoApprovals, n) is None,
        skipped_line(branch, RebaseReason::ConflictOverride, n) is None,
{
}

} // verus!
