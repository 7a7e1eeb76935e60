//! What the loader makes of a well-formed script: one in which no two lines
//! share a number and the first line is something the actor says.
//!
//! In the graph of such a script every line stands under its number, and
//! the choices of a line that the actor says are the replies that follow it
//! in the script, in their order, up to the next such line.

use crate::dialog::LineModel;
use crate::script::{assemble, records_of, with_choice};
use vstd::prelude::*;

verus! {

/// Whether no two of `records` share a number.
pub open spec fn distinct_numbers(records: Seq<LineModel>) -> bool {
    forall|i: int, j: int|
        0 <= i < j < records.len() ==> (#[trigger] records[i]).number != (
        #[trigger] records[j]).number
}

/// Whether no two of `records` share a number, none of them carries choices
/// of its own, and the first is something the actor says.
pub open spec fn well_formed(records: Seq<LineModel>) -> bool {
    &&& distinct_numbers(records)
    &&& forall|i: int| 0 <= i < records.len() ==> (#[trigger] records[i]).choices.len() == 0
    &&& records.len() > 0 ==> records[0].is_prompt()
}

/// The index of the last line at or before `i` that the actor says: the
/// line that offers the reply at `i`.
pub open spec fn owner(records: Seq<LineModel>, i: int) -> int
    decreases i + 1,
{
    if i < 0 {
        -1
    } else if records[i].is_prompt() {
        i
    } else {
        owner(records, i - 1)
    }
}

/// The line that stands `t` lines after the line that follows the line at
/// `p`.
pub open spec fn line_after(records: Seq<LineModel>, p: int, t: int) -> LineModel {
    records[p + 1 + t]
}

/// Whether `choices` are the numbers of the replies that follow the line at
/// `p`, one for one and in their order, up to the next line that the actor
/// says or to the end of the script.
pub open spec fn follows(records: Seq<LineModel>, choices: Seq<usize>, p: int) -> bool {
    &&& p + choices.len() < records.len()
    &&& (forall|t: int|
        #![trigger line_after(records, p, t)]
        #![trigger choices[t]]
        0 <= t < choices.len() ==> line_after(records, p, t).is_choice() && choices[t]
            == line_after(records, p, t).number)
    &&& (p + 1 + choices.len() == records.len() || records[p + 1 + choices.len()].is_prompt())
}

/// Whether the graph holds the line at `i` under its number, with the
/// fields that the script gives it, and with the choices that belong to it:
/// the replies that follow it where the actor says it, none where it is a
/// reply.
pub open spec fn kept(records: Seq<LineModel>, graph: Map<usize, LineModel>, i: int) -> bool {
    let line = records[i];
    &&& graph.contains_key(line.number)
    &&& graph[line.number] == LineModel { choices: graph[line.number].choices, ..line }
    &&& if line.is_prompt() {
        follows(records, graph[line.number].choices, i)
    } else {
        graph[line.number].choices.len() == 0
    }
}

/// What a script denotes carries no choices: the loader alone fills them
/// in.
pub proof fn lemma_records_carry_no_choices(lines: Seq<Seq<char>>)
    ensures
        records_of(lines) matches Ok(records) ==> forall|i: int|
            0 <= i < records.len() ==> (#[trigger] records[i]).choices.len() == 0,
    decreases lines.len(),
{
    if lines.len() > 0 {
        lemma_records_carry_no_choices(lines.drop_last());
    }
}

/// The lines of a script file are a well-formed script where they can be
/// read, no two of them share a number, and the first is something the
/// actor says.
pub proof fn lemma_script_is_well_formed(lines: Seq<Seq<char>>)
    requires
        records_of(lines) is Ok,
        distinct_numbers(records_of(lines)->Ok_0),
        records_of(lines)->Ok_0.len() > 0 ==> records_of(lines)->Ok_0[0].is_prompt(),
    ensures
        well_formed(records_of(lines)->Ok_0),
{
    lemma_records_carry_no_choices(lines);
}

/// The owner of a line is a line that the actor says, at or before it, and
/// every line between the two is a reply.
pub proof fn lemma_owner(records: Seq<LineModel>, i: int)
    requires
        0 <= i < records.len(),
        records[0].is_prompt(),
    ensures
        0 <= owner(records, i) <= i,
        records[owner(records, i)].is_prompt(),
        forall|j: int| owner(records, i) < j <= i ==> (#[trigger] records[j]).is_choice(),
    decreases i,
{
    if !records[i].is_prompt() {
        lemma_owner(records, i - 1);
    }
}

/// The owner of a line depends on the lines up to it only.
proof fn lemma_owner_of_prefix(records: Seq<LineModel>, i: int)
    requires
        -1 <= i < records.len() - 1,
    ensures
        owner(records.drop_last(), i) == owner(records, i),
    decreases i + 1,
{
    if i >= 0 && !records[i].is_prompt() {
        lemma_owner_of_prefix(records, i - 1);
    }
}

/// In the graph of a well-formed script every line is kept, the graph holds
/// nothing else, and the context is the number of the last line that the
/// actor says.
proof fn lemma_assembly(records: Seq<LineModel>)
    requires
        well_formed(records),
    ensures
        records.len() > 0 ==> assemble(records).context == records[owner(
            records,
            records.len() - 1,
        )].number,
        forall|i: int| 0 <= i < records.len() ==> #[trigger] kept(records, assemble(records).graph, i),
        forall|k: usize| #[trigger]
            assemble(records).graph.contains_key(k) ==> exists|i: int|
                0 <= i < records.len() && (#[trigger] records[i]).number == k,
    decreases records.len(),
{
    if records.len() == 0 {
        return ;
    }
    let n = records.len() - 1;
    let before = records.drop_last();
    let last = records.last();
    let old_graph = assemble(before).graph;
    let graph = assemble(records).graph;
    assert(well_formed(before)) by {
        assert forall|i: int, j: int| 0 <= i < j < before.len() implies (#[trigger] before[i]).number
            != (#[trigger] before[j]).number by {
            assert(records[i].number != records[j].number);
        }
        assert forall|i: int| 0 <= i < before.len() implies (#[trigger] before[i]).choices.len()
            == 0 by {
            assert(records[i].choices.len() == 0);
        }
    }
    lemma_assembly(before);
    lemma_owner(records, n);
    assert(last.choices =~= Seq::<usize>::empty());
    assert forall|i: int| 0 <= i < n implies records[i].number != last.number by {
        assert(records[i].number != records[n].number);
    }
    if last.is_prompt() {
        assert(graph == old_graph.insert(last.number, last));
        assert forall|i: int| 0 <= i < records.len() implies #[trigger] kept(records, graph, i) by {
            if i < n {
                assert(kept(before, old_graph, i));
                assert(records[i] == before[i]);
                let choices = graph[records[i].number].choices;
                if records[i].is_prompt() {
                    assert(follows(before, choices, i));
                    assert forall|t: int| 0 <= t < choices.len() implies #[trigger] line_after(
                        records,
                        i,
                        t,
                    ) == line_after(before, i, t) by {}
                    if i + 1 + choices.len() != n {
                        assert(before[i + 1 + choices.len()] == records[i + 1 + choices.len()]);
                    }
                    assert(follows(records, choices, i));
                }
            } else {
                assert(follows(records, last.choices, n));
            }
        }
        assert forall|k: usize| #[trigger] graph.contains_key(k) implies exists|i: int|
            0 <= i < records.len() && (#[trigger] records[i]).number == k by {
            if k == last.number {
                assert(records[n].number == k);
            } else {
                let i = choose|i: int| 0 <= i < before.len() && (#[trigger] before[i]).number == k;
                assert(records[i].number == k);
            }
        }
    } else {
        assert(n > 0);
        lemma_owner(before, n - 1);
        lemma_owner_of_prefix(records, n - 1);
        let p = owner(records, n);
        assert(p == owner(before, n - 1));
        let context = assemble(before).context;
        assert(context == before[p].number);
        assert(kept(before, old_graph, p));
        assert(records[p] == before[p]);
        let offered = old_graph[context].choices;
        let linked = old_graph.insert(context, with_choice(old_graph[context], last.number));
        assert(graph == linked.insert(last.number, last));
        assert(follows(before, offered, p));
        assert(p + 1 + offered.len() == n) by {
            if p + 1 + offered.len() != n {
                assert(before[p + 1 + offered.len()].is_prompt());
                assert(records[p + 1 + offered.len()].is_choice());
            }
        }
        assert forall|i: int| 0 <= i < records.len() implies #[trigger] kept(records, graph, i) by {
            if i == n {
                assert(graph[last.number] == last);
            } else if i == p {
                let choices = offered.push(last.number);
                assert(graph[context] == with_choice(old_graph[context], last.number));
                assert(graph[context].choices == choices);
                assert forall|t: int| 0 <= t < offered.len() implies #[trigger] line_after(
                    records,
                    p,
                    t,
                ) == line_after(before, p, t) && choices[t] == offered[t] by {}
                assert(line_after(records, p, offered.len() as int) == last);
                assert(follows(records, choices, p));
            } else {
                assert(kept(before, old_graph, i));
                assert(records[i] == before[i]);
                assert(records[i].number != context) by {
                    if i < p {
                        assert(records[i].number != records[p].number);
                    } else {
                        assert(records[p].number != records[i].number);
                    }
                }
                assert(graph[records[i].number] == old_graph[records[i].number]);
                let choices = graph[records[i].number].choices;
                if records[i].is_prompt() {
                    assert(i < p);
                    assert(follows(before, choices, i));
                    assert(i + 1 + choices.len() != n) by {
                        if i + 1 + choices.len() == n {
                            let t = p - i - 1;
                            assert(0 <= t < choices.len());
                            assert(line_after(before, i, t).is_choice());
                        }
                    }
                    assert(before[i + 1 + choices.len()] == records[i + 1 + choices.len()]);
                    assert forall|t: int| 0 <= t < choices.len() implies #[trigger] line_after(
                        records,
                        i,
                        t,
                    ) == line_after(before, i, t) by {}
                    assert(i + choices.len() < records.len());
                    assert(records[i + 1 + choices.len()].is_prompt());
                    assert(follows(records, choices, i));
                }
            }
        }
        assert forall|k: usize| #[trigger] graph.contains_key(k) implies exists|i: int|
            0 <= i < records.len() && (#[trigger] records[i]).number == k by {
            if k == last.number {
                assert(records[n].number == k);
            } else {
                assert(old_graph.contains_key(k));
                let i = choose|i: int| 0 <= i < before.len() && (#[trigger] before[i]).number == k;
                assert(records[i].number == k);
            }
        }
    }
}

/// In the graph of a well-formed script each line stands under its own
/// number with the fields that the script gives it. Where the actor says the
/// line, its choices are the numbers of the replies that follow it in the
/// script, one for one and in their order, up to the next line that the
/// actor says; where the line is a reply, it has no choices.
pub proof fn lemma_lines_are_kept(records: Seq<LineModel>, i: int)
    requires
        well_formed(records),
        0 <= i < records.len(),
    ensures
        kept(records, assemble(records).graph, i),
{
    lemma_assembly(records);
}

/// In the graph of a well-formed script the number of each reply stands in
/// the choices of exactly one line: the line that the actor says last
/// before the reply. It stands there once, at the rank that the reply has
/// among the replies that follow that line.
pub proof fn lemma_reply_has_one_prompt(records: Seq<LineModel>, j: int)
    requires
        well_formed(records),
        0 <= j < records.len(),
        records[j].is_choice(),
    ensures
        ({
            let graph = assemble(records).graph;
            let p = owner(records, j);
            let reply = records[j].number;
            &&& 0 <= p < j
            &&& records[p].is_prompt()
            &&& graph.contains_key(records[p].number)
            &&& graph[records[p].number].is_prompt()
            &&& j - p - 1 < graph[records[p].number].choices.len()
            &&& forall|k: usize, t: int|
                graph.contains_key(k) && 0 <= t < graph[k].choices.len() ==> (#[trigger] graph[k].choices[t]
                    == reply <==> k == records[p].number && t == j - p - 1)
        }),
{
    let graph = assemble(records).graph;
    let p = owner(records, j);
    let reply = records[j].number;
    lemma_assembly(records);
    lemma_owner(records, j);
    assert(kept(records, graph, p));
    let offered = graph[records[p].number].choices;
    assert(follows(records, offered, p));
    assert(j - p - 1 < offered.len()) by {
        if j - p - 1 >= offered.len() {
            assert(records[p + 1 + offered.len()].is_choice());
        }
    }
    assert(line_after(records, p, j - p - 1) == records[j]);
    assert forall|k: usize, t: int|
        graph.contains_key(k) && 0 <= t < graph[k].choices.len() implies (#[trigger] graph[k].choices[t]
            == reply <==> k == records[p].number && t == j - p - 1) by {
        let i = choose|i: int| 0 <= i < records.len() && (#[trigger] records[i]).number == k;
        assert(kept(records, graph, i));
        assert(records[i].is_prompt());
        assert(follows(records, graph[k].choices, i));
        let at = i + 1 + t;
        assert(line_after(records, i, t) == records[at]);
        if graph[k].choices[t] == reply {
            if at < j {
                assert(records[at].number != records[j].number);
            } else if j < at {
                assert(records[j].number != records[at].number);
            }
            assert(at == j);
            assert(i == p) by {
                if i < p {
                    let u = p - i - 1;
                    assert(0 <= u < graph[k].choices.len());
                    assert(line_after(records, i, u).is_choice());
                } else if p < i {
                    assert(records[i].is_choice());
                }
            }
        }
        if k == records[p].number && t == j - p - 1 {
            if i < p {
                assert(records[i].number != records[p].number);
            } else if p < i {
                assert(records[p].number != records[i].number);
            }
            assert(i == p);
        }
    }
}

/// The graph of a well-formed script holds the lines of the script and no
/// others.
pub proof fn lemma_graph_holds_the_script(records: Seq<LineModel>, k: usize)
    requires
        well_formed(records),
    ensures
        assemble(records).graph.contains_key(k) <==> exists|i: int|
            0 <= i < records.len() && (#[trigger] records[i]).number == k,
{
    lemma_assembly(records);
    if exists|i: int| 0 <= i < records.len() && (#[trigger] records[i]).number == k {
        let i = choose|i: int| 0 <= i < records.len() && (#[trigger] records[i]).number == k;
        assert(kept(records, assemble(records).graph, i));
    }
}

} // verus!
