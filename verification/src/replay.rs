//! A whole conversation, played from the answers that the player gives.
//!
//! `Npc::replay` walks the dialog graph as a conversation on the terminal
//! does, with the answers taken from a list. It says at which lines the
//! player answered, what the player was told, and how the conversation
//! ended; the actor is left in the state that the accepted replies put it
//! in.

use crate::dialog::LineModel;
use crate::npc::{
    all_present, first_missing, notice_views, state_after, test_passes, turn_model,
    ConversationError, Notice, NoticeModel, Npc, NpcState, Player, Presentation, Turn,
};
use vstd::prelude::*;

verus! {

/// How a replayed conversation ends.
#[derive(Debug, Clone, Copy, PartialEq, Eq, Structural)]
pub enum Ending {
    /// The conversation came to a line at which the player is asked
    /// nothing.
    Finished,
    /// The player is asked at the given line, and no answer is left.
    Unanswered(usize),
    /// The answer that the player gave at the given line is none of its
    /// choices.
    NoSuchOption(usize),
    /// The conversation met a fault in the dialog graph.
    Fault(ConversationError),
}

/// What a replayed conversation came to.
#[derive(Debug, PartialEq, Eq)]
pub struct Replay {
    /// The lines at which the player answered, in order.
    pub asked: Vec<usize>,
    /// What the player was told, in order.
    pub notices: Vec<Notice>,
    /// How the conversation ended.
    pub ending: Ending,
}

/// `Replay` as mathematical values, with the state that the actor is left
/// in.
pub struct ReplayModel {
    pub asked: Seq<usize>,
    pub notices: Seq<NoticeModel>,
    pub ending: Ending,
    pub state: NpcState,
}

/// Whether the player is asked at the line `number`: the graph holds the
/// line and each of its choices, and there is at least one.
pub open spec fn asks(graph: Map<usize, LineModel>, number: usize) -> bool {
    &&& number != 0
    &&& graph.contains_key(number)
    &&& graph[number].choices.len() > 0
    &&& all_present(graph, graph[number].choices)
}

/// The first of `choices` that the graph does not hold.
pub open spec fn first_absent(graph: Map<usize, LineModel>, choices: Seq<usize>) -> usize {
    choose|missing: usize| first_missing(graph, choices, missing)
}

/// How the conversation ends at a line at which the player is not asked.
pub open spec fn ends_with(graph: Map<usize, LineModel>, number: usize) -> Ending {
    if number == 0 {
        Ending::Finished
    } else if !graph.contains_key(number) {
        Ending::Fault(ConversationError::MissingLine(number))
    } else if graph[number].choices.len() == 0 {
        Ending::Finished
    } else {
        Ending::Fault(ConversationError::MissingLine(first_absent(graph, graph[number].choices)))
    }
}

/// What the conversation that begins at the line `number` comes to, for an
/// actor in `state` and a player of the given intelligence who gives
/// `answers` in turn.
pub open spec fn replay_model(
    graph: Map<usize, LineModel>,
    number: usize,
    answers: Seq<usize>,
    state: NpcState,
    intelligence: i32,
) -> ReplayModel
    decreases answers.len(),
{
    if !asks(graph, number) {
        ReplayModel {
            asked: Seq::empty(),
            notices: Seq::empty(),
            ending: ends_with(graph, number),
            state,
        }
    } else if answers.len() == 0 {
        ReplayModel {
            asked: Seq::empty(),
            notices: Seq::empty(),
            ending: Ending::Unanswered(number),
            state,
        }
    } else if answers[0] >= graph[number].choices.len() {
        ReplayModel {
            asked: seq![number],
            notices: Seq::empty(),
            ending: Ending::NoSuchOption(number),
            state,
        }
    } else {
        let turn = turn_model(graph, number, answers[0] as int, state, intelligence);
        match turn.next {
            Err(fault) => ReplayModel {
                asked: seq![number],
                notices: turn.notices,
                ending: Ending::Fault(fault),
                state: turn.state,
            },
            Ok(step) => {
                let rest = replay_model(
                    graph,
                    step.goes_to(),
                    answers.skip(1),
                    turn.state,
                    intelligence,
                );
                ReplayModel {
                    asked: seq![number] + rest.asked,
                    notices: turn.notices + rest.notices,
                    ending: rest.ending,
                    state: rest.state,
                }
            },
        }
    }
}

/// Whether a reply passes both gates for an actor in `state` and a player
/// of the given intelligence.
pub open spec fn accepts(line: LineModel, state: NpcState, intelligence: i32) -> bool {
    &&& line.intelligence is Some ==> intelligence >= line.intelligence->0
    &&& line.test is Some ==> test_passes(line.test->0, state)
}

/// The effect fields of the replies that are accepted in the conversation
/// of `replay_model`, in order.
pub open spec fn accepted_effects(
    graph: Map<usize, LineModel>,
    number: usize,
    answers: Seq<usize>,
    state: NpcState,
    intelligence: i32,
) -> Seq<Option<Seq<char>>>
    decreases answers.len(),
{
    if !asks(graph, number) || answers.len() == 0 || answers[0] >= graph[number].choices.len() {
        Seq::empty()
    } else {
        let line = graph[graph[number].choices[answers[0] as int]];
        let turn = turn_model(graph, number, answers[0] as int, state, intelligence);
        let here = if accepts(line, state, intelligence) {
            seq![line.result]
        } else {
            Seq::empty()
        };
        match turn.next {
            Err(fault) => here,
            Ok(step) => here + accepted_effects(
                graph,
                step.goes_to(),
                answers.skip(1),
                turn.state,
                intelligence,
            ),
        }
    }
}

/// The state of an actor that begins in `state` after `effects`, applied in
/// order.
pub open spec fn effects_applied(state: NpcState, effects: Seq<Option<Seq<char>>>) -> NpcState
    decreases effects.len(),
{
    if effects.len() == 0 {
        state
    } else {
        effects_applied(state_after(effects[0], state), effects.skip(1))
    }
}

/// A conversation leaves the actor in the state that the effects of the
/// accepted replies give, applied in order to the state that it began in.
/// Replies that are not accepted, and what is presented, change nothing.
pub proof fn lemma_state_follows_the_accepted_effects(
    graph: Map<usize, LineModel>,
    number: usize,
    answers: Seq<usize>,
    state: NpcState,
    intelligence: i32,
)
    ensures
        replay_model(graph, number, answers, state, intelligence).state == effects_applied(
            state,
            accepted_effects(graph, number, answers, state, intelligence),
        ),
    decreases answers.len(),
{
    if asks(graph, number) && answers.len() > 0 && answers[0] < graph[number].choices.len() {
        let choices = graph[number].choices;
        assert(graph.contains_key(choices[answers[0] as int]));
        let line = graph[choices[answers[0] as int]];
        let turn = turn_model(graph, number, answers[0] as int, state, intelligence);
        let here = if accepts(line, state, intelligence) {
            seq![line.result]
        } else {
            Seq::empty()
        };
        match turn.next {
            Err(fault) => {
                assert(here.skip(1) =~= Seq::<Option<Seq<char>>>::empty());
                assert(effects_applied(turn.state, here.skip(1)) == turn.state);
            },
            Ok(step) => {
                let rest = accepted_effects(
                    graph,
                    step.goes_to(),
                    answers.skip(1),
                    turn.state,
                    intelligence,
                );
                lemma_state_follows_the_accepted_effects(
                    graph,
                    step.goes_to(),
                    answers.skip(1),
                    turn.state,
                    intelligence,
                );
                if accepts(line, state, intelligence) {
                    assert((here + rest).skip(1) =~= rest);
                } else {
                    assert(here + rest =~= rest);
                }
            },
        }
    }
}

/// After a reply that is not accepted the player is asked again at the
/// line that offered it, the actor being as it was: the conversation goes
/// on from there as if it began there with the answers that are left.
pub proof fn lemma_refused_answer_is_asked_again(
    graph: Map<usize, LineModel>,
    number: usize,
    answers: Seq<usize>,
    state: NpcState,
    intelligence: i32,
)
    requires
        asks(graph, number),
        answers.len() > 0,
        answers[0] < graph[number].choices.len(),
        !accepts(graph[graph[number].choices[answers[0] as int]], state, intelligence),
    ensures
        ({
            let whole = replay_model(graph, number, answers, state, intelligence);
            let rest = replay_model(graph, number, answers.skip(1), state, intelligence);
            &&& whole.asked == seq![number] + rest.asked
            &&& whole.notices.len() == 1 + rest.notices.len()
            &&& whole.ending == rest.ending
            &&& whole.state == rest.state
            &&& answers.len() > 1 ==> whole.asked.len() > 1 && whole.asked[1] == number
        }),
{
    let choices = graph[number].choices;
    assert(graph.contains_key(choices[answers[0] as int]));
    if answers.len() > 1 {
        assert(answers.skip(1)[0] == answers[1]);
    }
}

/// No two of the choices are the first that the graph does not hold.
proof fn lemma_first_missing_is_one(
    graph: Map<usize, LineModel>,
    choices: Seq<usize>,
    missing: usize,
)
    requires
        first_missing(graph, choices, missing),
    ensures
        first_absent(graph, choices) == missing,
{
    let other = first_absent(graph, choices);
    let i = choose|i: int|
        0 <= i < choices.len() && #[trigger] choices[i] == missing && !graph.contains_key(missing)
            && all_present(graph, choices.take(i));
    let j = choose|j: int|
        0 <= j < choices.len() && #[trigger] choices[j] == other && !graph.contains_key(other)
            && all_present(graph, choices.take(j));
    if i < j {
        assert(choices.take(j)[i] == missing);
    } else if j < i {
        assert(choices.take(i)[j] == other);
    }
}

impl Npc {
    /// Plays the conversation that begins at the line `start`, with the
    /// answers of the player taken from `answers` in turn.
    pub fn replay(&mut self, start: usize, answers: &Vec<usize>, player: &Player) -> (r: Replay)
        ensures
            final(self).name == old(self).name,
            final(self).dialog_tree == old(self).dialog_tree,
            final(self).state == replay_model(
                old(self).dialog_tree@,
                start,
                answers@,
                old(self).state,
                player.intelligence,
            ).state,
            r.asked@ == replay_model(
                old(self).dialog_tree@,
                start,
                answers@,
                old(self).state,
                player.intelligence,
            ).asked,
            notice_views(r.notices@) == replay_model(
                old(self).dialog_tree@,
                start,
                answers@,
                old(self).state,
                player.intelligence,
            ).notices,
            r.ending == replay_model(
                old(self).dialog_tree@,
                start,
                answers@,
                old(self).state,
                player.intelligence,
            ).ending,
    {
        let ghost graph = self.dialog_tree@;
        let ghost whole = replay_model(graph, start, answers@, self.state, player.intelligence);
        let mut asked: Vec<usize> = Vec::new();
        let mut notices: Vec<Notice> = Vec::new();
        let mut number: usize = start;
        let mut i: usize = 0;
        assert(answers@.skip(0) =~= answers@);
        assert(asked@ + whole.asked =~= whole.asked);
        assert(notice_views(notices@) + whole.notices =~= whole.notices);
        loop
            invariant
                i <= answers.len(),
                whole == replay_model(
                    old(self).dialog_tree@,
                    start,
                    answers@,
                    old(self).state,
                    player.intelligence,
                ),
                self.name == old(self).name,
                self.dialog_tree == old(self).dialog_tree,
                graph == self.dialog_tree@,
                asked@ + replay_model(
                    graph,
                    number,
                    answers@.skip(i as int),
                    self.state,
                    player.intelligence,
                ).asked == whole.asked,
                notice_views(notices@) + replay_model(
                    graph,
                    number,
                    answers@.skip(i as int),
                    self.state,
                    player.intelligence,
                ).notices == whole.notices,
                replay_model(
                    graph,
                    number,
                    answers@.skip(i as int),
                    self.state,
                    player.intelligence,
                ).ending == whole.ending,
                replay_model(
                    graph,
                    number,
                    answers@.skip(i as int),
                    self.state,
                    player.intelligence,
                ).state == whole.state,
            decreases answers.len() - i,
        {
            let ghost left = answers@.skip(i as int);
            let ghost rest = replay_model(graph, number, left, self.state, player.intelligence);
            let options = match self.advance(number, player) {
                Ok(Presentation::Finished) => {
                    assert(asked@ + rest.asked =~= asked@);
                    assert(notice_views(notices@) + rest.notices =~= notice_views(notices@));
                    return Replay { asked, notices, ending: Ending::Finished };
                },
                Err(fault) => {
                    proof {
                        if let ConversationError::MissingLine(missing) = fault {
                            if number != 0 && graph.contains_key(number) {
                                lemma_first_missing_is_one(graph, graph[number].choices, missing);
                            }
                        }
                    }
                    assert(asked@ + rest.asked =~= asked@);
                    assert(notice_views(notices@) + rest.notices =~= notice_views(notices@));
                    return Replay { asked, notices, ending: Ending::Fault(fault) };
                },
                Ok(Presentation::Ask { prompt, options }) => options,
            };
            assert(asks(graph, number));
            assert(options@.len() == graph[number].choices.len()) by {
                assert(options@.map_values(|option: String| option@).len() == options@.len());
            }
            if i >= answers.len() {
                assert(asked@ + rest.asked =~= asked@);
                assert(notice_views(notices@) + rest.notices =~= notice_views(notices@));
                return Replay { asked, notices, ending: Ending::Unanswered(number) };
            }
            let selection = answers[i];
            assert(left[0] == selection);
            asked.push(number);
            if selection >= options.len() {
                assert(notice_views(notices@) + rest.notices =~= notice_views(notices@));
                return Replay { asked, notices, ending: Ending::NoSuchOption(number) };
            }
            let ghost before = notice_views(notices@);
            let ghost turn = turn_model(
                graph,
                number,
                selection as int,
                self.state,
                player.intelligence,
            );
            let Turn { notices: mut told, next } = self.respond(number, selection, player);
            notices.append(&mut told);
            assert(notice_views(notices@) =~= before + turn.notices);
            assert(left.skip(1) =~= answers@.skip(i + 1));
            match next {
                Err(fault) => {
                    return Replay { asked, notices, ending: Ending::Fault(fault) };
                },
                Ok(step) => {
                    let ghost after = replay_model(
                        graph,
                        step.goes_to(),
                        left.skip(1),
                        turn.state,
                        player.intelligence,
                    );
                    assert(asked@ + after.asked =~= asked@.drop_last() + (seq![number]
                        + after.asked));
                    assert(notice_views(notices@) + after.notices =~= before + (turn.notices
                        + after.notices));
                    number = step.target();
                    i = i + 1;
                },
            }
        }
    }
}

} // verus!
