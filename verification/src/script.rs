//! The dialog graph and the loader that assembles it from the lines of a
//! script.

use crate::dialog::{parse_line, DialogLine, LineFault, LineModel};
use crate::text::{chars_of, slice_of, trim, trim_range};
use std::collections::HashMap;
use vstd::prelude::*;

verus! {

broadcast use vstd::std_specs::hash::group_hash_axioms;

/// The lines of a script, each under its number.
#[derive(Debug)]
pub struct DialogTree {
    lines: HashMap<usize, DialogLine>,
}

/// `line` with one more choice at the end of its list.
pub open spec fn with_choice(line: LineModel, choice: usize) -> LineModel {
    LineModel { choices: line.choices.push(choice), ..line }
}

impl View for DialogTree {
    type V = Map<usize, LineModel>;

    closed spec fn view(&self) -> Map<usize, LineModel> {
        self.lines@.map_values(|line: DialogLine| line@)
    }
}

impl DialogTree {
    /// Every line stands under its own number.
    #[verifier::type_invariant]
    spec fn keyed_by_number(self) -> bool {
        forall|k: usize| #[trigger] self.lines@.contains_key(k) ==> self.lines@[k].number == k
    }

    /// A graph without lines.
    pub fn new() -> (tree: DialogTree)
        ensures
            tree@ == Map::<usize, LineModel>::empty(),
    {
        let tree = DialogTree { lines: HashMap::new() };
        assert(tree@ =~= Map::<usize, LineModel>::empty());
        tree
    }

    /// The number of lines.
    pub fn len(&self) -> (n: usize)
        ensures
            n == self@.len(),
    {
        assert(self@.dom() =~= self.lines@.dom());
        self.lines.len()
    }

    /// The line with the given number, if there is one.
    pub fn get(&self, number: usize) -> (r: Option<&DialogLine>)
        ensures
            match r {
                Some(line) => self@.contains_key(number) && line@ == self@[number] && line.number
                    == number,
                None => !self@.contains_key(number),
            },
    {
        proof {
            use_type_invariant(self);
        }
        self.lines.get(&number)
    }

    /// Puts `line` under its number, in place of a line that stood there.
    pub fn insert(&mut self, line: DialogLine)
        ensures
            final(self)@ == old(self)@.insert(line.number, line@),
    {
        proof {
            use_type_invariant(&*self);
        }
        let ghost before = self.lines@;
        // The map is taken out while it changes: the tree holds a map that
        // meets `keyed_by_number` at every moment.
        let mut lines: HashMap<usize, DialogLine> = HashMap::new();
        std::mem::swap(&mut self.lines, &mut lines);
        lines.insert(line.number, line);
        std::mem::swap(&mut self.lines, &mut lines);
        assert(self@ =~= before.map_values(|l: DialogLine| l@).insert(line.number, line@));
    }

    /// Adds `choice` to the choices of the line `prompt`, if there is such a
    /// line.
    pub fn add_choice(&mut self, prompt: usize, choice: usize)
        ensures
            final(self)@ == if old(self)@.contains_key(prompt) {
                old(self)@.insert(prompt, with_choice(old(self)@[prompt], choice))
            } else {
                old(self)@
            },
    {
        proof {
            use_type_invariant(&*self);
        }
        let ghost before = self.lines@;
        let mut lines: HashMap<usize, DialogLine> = HashMap::new();
        std::mem::swap(&mut self.lines, &mut lines);
        match lines.remove(&prompt) {
            Some(mut line) => {
                line.choices.push(choice);
                lines.insert(prompt, line);
                std::mem::swap(&mut self.lines, &mut lines);
                assert(self@ =~= before.map_values(|l: DialogLine| l@).insert(
                    prompt,
                    with_choice(before[prompt]@, choice),
                ));
            },
            None => {
                assert(lines@ =~= before);
                std::mem::swap(&mut self.lines, &mut lines);
            },
        }
    }
}

/// Whether a line of a script file holds a dialog line: trimmed, it begins
/// with an opening brace. Other lines are comments.
pub open spec fn is_data_line(raw: Seq<char>) -> bool {
    trim(raw).len() > 0 && trim(raw)[0] == '{'
}

/// The first line of a script that cannot be read, and why.
pub struct Failure {
    pub index: int,
    pub fault: LineFault,
}

/// The dialog lines that the lines of a script file denote, in order, or
/// the first of them that cannot be read.
pub open spec fn records_of(lines: Seq<Seq<char>>) -> Result<Seq<LineModel>, Failure>
    decreases lines.len(),
{
    if lines.len() == 0 {
        Ok(Seq::empty())
    } else {
        match records_of(lines.drop_last()) {
            Err(failure) => Err(failure),
            Ok(records) => if !is_data_line(lines.last()) {
                Ok(records)
            } else {
                match parse_line(trim(lines.last())) {
                    Ok(line) => Ok(records.push(line)),
                    Err(fault) => Err(Failure { index: lines.len() - 1, fault }),
                }
            },
        }
    }
}

/// A graph under assembly: the lines so far, and the number of the last
/// line that the actor says (0 before the first).
pub struct Assembly {
    pub graph: Map<usize, LineModel>,
    pub context: usize,
}

/// The assembly with one more line. A reply is first added to the choices of
/// the line under the context number, if there is such a line; a line that
/// the actor says becomes the context. Either is then put under its number,
/// in place of a line that stood there.
pub open spec fn attach(so_far: Assembly, line: LineModel) -> Assembly {
    let linked = if line.is_choice() && so_far.graph.contains_key(so_far.context) {
        so_far.graph.insert(
            so_far.context,
            with_choice(so_far.graph[so_far.context], line.number),
        )
    } else {
        so_far.graph
    };
    Assembly {
        graph: linked.insert(line.number, line),
        context: if line.is_prompt() {
            line.number
        } else {
            so_far.context
        },
    }
}

/// The assembly of a sequence of lines, taken in order.
pub open spec fn assemble(records: Seq<LineModel>) -> Assembly
    decreases records.len(),
{
    if records.len() == 0 {
        Assembly { graph: Map::empty(), context: 0 }
    } else {
        attach(assemble(records.drop_last()), records.last())
    }
}

/// The characters of each of `lines`.
pub open spec fn texts(lines: Seq<String>) -> Seq<Seq<char>> {
    lines.map_values(|line: String| line@)
}

/// Why a script cannot be loaded: the line that cannot be read, by its
/// index among the lines and by its trimmed content, and the fault in it.
#[derive(Debug)]
pub struct LoadError {
    pub index: usize,
    pub content: String,
    pub fault: LineFault,
}

impl LoadError {
    /// The words that describe the error.
    pub open spec fn text(self) -> Seq<char> {
        "Failed to parse dialog line: "@ + self.fault.text()
    }

    /// Describes the error in words.
    pub fn message(&self) -> (r: String)
        ensures
            r@ == self.text(),
    {
        let mut r = "Failed to parse dialog line: ".to_owned();
        r.append(self.fault.message().as_str());
        r
    }
}

/// Assembles the dialog graph of a script from the lines of its file.
pub fn parse_dialog_lines(lines: &Vec<String>) -> (r: Result<DialogTree, LoadError>)
    ensures
        match records_of(texts(lines@)) {
            Ok(records) => r matches Ok(tree) && tree@ == assemble(records).graph,
            Err(failure) => r matches Err(error) && error.index == failure.index && error.fault
                == failure.fault && error.content@ == trim(lines[failure.index]@),
        },
{
    let mut tree = DialogTree::new();
    let mut last_npc_number: usize = 0;
    let ghost mut records: Seq<LineModel> = Seq::empty();
    let mut i: usize = 0;
    while i < lines.len()
        invariant
            i <= lines.len(),
            records_of(texts(lines@).take(i as int)) == Ok::<Seq<LineModel>, Failure>(records),
            tree@ == assemble(records).graph,
            last_npc_number == assemble(records).context,
        decreases lines.len() - i,
    {
        let raw = lines[i].as_str();
        let chars = chars_of(raw);
        let (from, to) = trim_range(&chars, 0, chars.len());
        proof {
            assert(chars@.subrange(0, chars.len() as int) =~= raw@);
            assert(texts(lines@).take(i + 1).drop_last() =~= texts(lines@).take(i as int));
            assert(texts(lines@).take(i + 1).last() == raw@);
        }
        if from < to && chars[from] == '{' {
            let content = slice_of(raw, from, to);
            match DialogLine::parse(content.as_str()) {
                Ok(line) => {
                    if line.response.is_none() {
                        last_npc_number = line.number;
                    } else {
                        tree.add_choice(last_npc_number, line.number);
                    }
                    proof {
                        assert(records.push(line@).drop_last() =~= records);
                        records = records.push(line@);
                    }
                    tree.insert(line);
                },
                Err(fault) => {
                    proof {
                        lemma_failure_stays(texts(lines@), i + 1);
                    }
                    return Err(LoadError { index: i, content, fault });
                },
            }
        }
        i = i + 1;
    }
    assert(texts(lines@).take(lines.len() as int) =~= texts(lines@));
    Ok(tree)
}

/// A script in which some leading lines fail as a whole fails in the same
/// way.
proof fn lemma_failure_stays(lines: Seq<Seq<char>>, n: int)
    requires
        0 <= n <= lines.len(),
        records_of(lines.take(n)) is Err,
    ensures
        records_of(lines) == records_of(lines.take(n)),
    decreases lines.len(),
{
    if n == lines.len() {
        assert(lines.take(n) =~= lines);
    } else {
        assert(lines.drop_last().take(n) =~= lines.take(n));
        lemma_failure_stays(lines.drop_last(), n);
    }
}

} // verus!
