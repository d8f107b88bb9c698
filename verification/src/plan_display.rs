//! The preview of a plan: the whole stack, one numbered line per commit.
use crate::text;
use vstd::prelude::*;

verus! {

/// One commit of a plan and what is done with it.
#[derive(Debug, Clone, PartialEq, Eq)]
pub struct PlanRow {
    /// The full commit SHA.
    pub sha: String,
    /// The subject line.
    pub subject: String,
    /// The Change-Id, or nothing.
    pub change_id: String,
    /// What is done with the commit, such as `drop` or `fixup`.
    pub action: Option<String>,
}

/// The line of row `n`, counted from 1.
pub open spec fn row_line(n: nat, row: PlanRow) -> Seq<char> {
    "  "@ + text::decimal(n) + ". "@ + text::cut(row.sha@, 12) + " "@ + row.subject@ + (if row.change_id@.len()
        == 0 {
        seq![]
    } else {
        " ("@ + text::cut(row.change_id@, 12) + ")"@
    }) + (match row.action {
        Some(a) => " ["@ + a@ + "]"@,
        None => seq![],
    })
}

/// Whether the SHA and the Change-Id of a row can be cut to 12 bytes.
pub open spec fn row_cuts(row: PlanRow) -> bool {
    text::cuts_at(row.sha@, 12) && text::cuts_at(row.change_id@, 12)
}

fn format_row(n: usize, row: &PlanRow) -> (r: String)
    requires
        row_cuts(*row),
    ensures
        r@ == row_line(n as nat, *row),
{
    let mut cid = String::new();
    if !row.change_id.as_str().is_empty() {
        cid.append(" (");
        cid.append(text::cut_to(row.change_id.as_str(), 12).as_str());
        cid.append(")");
        proof {
            assert(cid@ =~= " ("@ + text::cut(row.change_id@, 12) + ")"@);
        }
    }
    let mut tag = String::new();
    if let Some(a) = &row.action {
        tag.append(" [");
        tag.append(a.as_str());
        tag.append("]");
        proof {
            assert(tag@ =~= " ["@ + a@ + "]"@);
        }
    }
    let mut line = "  ".to_owned();
    line.append(text::decimal_of(n as u64).as_str());
    line.append(". ");
    line.append(text::cut_to(row.sha.as_str(), 12).as_str());
    line.append(" ");
    line.append(row.subject.as_str());
    line.append(cid.as_str());
    line.append(tag.as_str());
    line
}

/// The preview of a plan: its title, and a line for each row.
pub fn render_plan(title: &str, rows: &Vec<PlanRow>) -> (r: Vec<String>)
    requires
        rows.len() < usize::MAX,
        forall|i: int| 0 <= i < rows.len() ==> row_cuts(#[trigger] rows@[i]),
    ensures
        r.len() == rows.len() + 1,
        r@[0]@ == title@,
        forall|i: int| 0 <= i < rows.len() ==> #[trigger] r@[i + 1]@ == row_line((i + 1) as nat, rows@[i]),
{
    let mut out: Vec<String> = Vec::new();
    out.push(title.to_owned());
    let mut i: usize = 0;
    while i < rows.len()
        invariant
            i <= rows.len(),
            rows.len() < usize::MAX,
            out.len() == i + 1,
            out@[0]@ == title@,
            forall|j: int| 0 <= j < rows.len() ==> row_cuts(#[trigger] rows@[j]),
            forall|j: int|
                1 <= j < out.len() ==> #[trigger] out@[j]@ == row_line(j as nat, rows@[j - 1]),
        decreases rows.len() - i,
    {
        out.push(format_row(i + 1, &rows[i]));
        i += 1;
    }
    out
}

/// A row of a plan shows its place, twelve characters of the SHA, the subject,
/// twelve characters of the Change-Id where there is one, and what is done.
pub proof fn law_row_reads(n: nat, row: PlanRow)
    requires
        row.sha@.len() >= 12,
        text::all_ascii(row.sha@),
        text::all_ascii(row.change_id@),
        row.change_id@.len() == 0 || row.change_id@.len() >= 12,
    ensures
        ({
            let start = "  "@ + text::decimal(n) + ". "@ + row.sha@.take(12) + " "@ + row.subject@;
            let id = " ("@ + row.change_id@.take(12) + ")"@;
            &&& row.change_id@.len() == 0 && row.action is None ==> row_line(n, row) == start
            &&& row.change_id@.len() > 0 && row.action is None ==> row_line(n, row) == start + id
            &&& row.change_id@.len() == 0 && row.action is Some ==> row_line(n, row) == start + (
            " ["@ + row.action->0@ + "]"@)
            &&& row.change_id@.len() > 0 && row.action is Some ==> row_line(n, row) == start + id
                + (" ["@ + row.action->0@ + "]"@)
        }),
{
    text::law_ascii_cuts_anywhere(row.sha@, 12);
    text::law_ascii_cuts_anywhere(row.change_id@, 12);
    let start = "  "@ + text::decimal(n) + ". "@ + row.sha@.take(12) + " "@ + row.subject@;
    let id = " ("@ + row.change_id@.take(12) + ")"@;
    let none = Seq::<char>::empty();
    assert(row.sha@.len() == 12 ==> row.sha@.take(12) =~= row.sha@);
    assert(row.change_id@.len() == 12 ==> row.change_id@.take(12) =~= row.change_id@);
    assert(start + none =~= start);
    assert(start + none + none =~= start);
    assert(start + id + none =~= start + id);
}

} // verus!
