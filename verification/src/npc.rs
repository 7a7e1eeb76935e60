//! The conversation engine: an actor, its relationship with the player, and
//! the walk through its dialog graph.
//!
//! The engine never asks the player anything itself. `Npc::advance` says what
//! is to be asked at a line, and `Npc::respond` takes the answer, tests the
//! gates of the chosen reply, applies its effect and says where the
//! conversation goes next. A reply that fails a gate sends the conversation
//! back to the line that offered it, so that the player may pick again.

use crate::chance::{choose_name, NAMES};
use crate::dialog::{Gender, LineModel};
use crate::script::DialogTree;
use crate::text::{replace, replace_all, same_text};
use vstd::prelude::*;

verus! {

/// How the actor stands to the player.
#[derive(Debug, Clone, Copy, PartialEq, Eq, Structural)]
pub enum NpcState {
    Stranger,
    Waiting,
    Follower,
}

/// The player who talks to the actor.
#[derive(Debug)]
pub struct Player {
    pub name: String,
    pub intelligence: i32,
    pub gender: Gender,
}

/// A non-player character to talk to.
#[derive(Debug)]
pub struct Npc {
    pub name: String,
    pub state: NpcState,
    pub dialog_tree: DialogTree,
}

/// Something that the player is told while a reply is handled.
#[derive(Debug, PartialEq, Eq)]
pub enum Notice {
    /// The reply asks for more intelligence than the player has.
    NotEnoughIntelligence,
    /// The reply is open to followers only.
    FollowerRequired,
    /// The reply is open only while the actor waits.
    NotWaiting,
    /// The reply names a test that the engine does not know.
    TestNotImplemented(String),
    /// The actor has taken the given state.
    StateChanged(NpcState),
    /// The reply names an effect that the engine does not carry out.
    ResultNotImplemented(String),
}

/// What a `Notice` holds, as mathematical values.
pub enum NoticeModel {
    NotEnoughIntelligence,
    FollowerRequired,
    NotWaiting,
    TestNotImplemented(Seq<char>),
    StateChanged(NpcState),
    ResultNotImplemented(Seq<char>),
}

impl View for Notice {
    type V = NoticeModel;

    open spec fn view(&self) -> NoticeModel {
        match self {
            Notice::NotEnoughIntelligence => NoticeModel::NotEnoughIntelligence,
            Notice::FollowerRequired => NoticeModel::FollowerRequired,
            Notice::NotWaiting => NoticeModel::NotWaiting,
            Notice::TestNotImplemented(op) => NoticeModel::TestNotImplemented(op@),
            Notice::StateChanged(state) => NoticeModel::StateChanged(*state),
            Notice::ResultNotImplemented(op) => NoticeModel::ResultNotImplemented(op@),
        }
    }
}

/// What each of `notices` holds.
pub open spec fn notice_views(notices: Seq<Notice>) -> Seq<NoticeModel> {
    notices.map_values(|notice: Notice| notice@)
}

/// Where a conversation goes after a reply.
#[derive(Debug, Clone, Copy, PartialEq, Eq, Structural)]
pub enum Step {
    /// The reply was accepted; the actor answers with the given line, and
    /// with nothing where it is 0.
    Advance(usize),
    /// The player lacks the intelligence for the reply `reply`; the line
    /// `prompt`, which offered it, offers its choices again.
    RetryAtChoice { reply: usize, prompt: usize },
    /// The actor is not in the state that the reply asks for; the
    /// conversation goes back to the line that offered the reply.
    RetryAtPrompt(usize),
}

impl Step {
    /// The line at which the conversation goes on. After a reply that was
    /// not accepted, for either reason, that is the line that offered it.
    pub open spec fn goes_to(self) -> usize {
        match self {
            Step::Advance(next) => next,
            Step::RetryAtChoice { reply, prompt } => prompt,
            Step::RetryAtPrompt(prompt) => prompt,
        }
    }
}

/// A fault in the dialog graph that ends a conversation.
#[derive(Debug, Clone, Copy, PartialEq, Eq, Structural)]
pub enum ConversationError {
    /// The graph has no line with the given number.
    MissingLine(usize),
    /// The reply with the given number was accepted and names no line to
    /// answer with.
    MissingResponse(usize),
}

/// What `Npc::advance` finds at a line.
#[derive(Debug, PartialEq, Eq)]
pub enum Presentation {
    /// The conversation ends here, and the player is asked nothing.
    Finished,
    /// The player is to pick one of `options` in answer to `prompt`.
    Ask { prompt: String, options: Vec<String> },
}

/// What handling one reply has come to.
#[derive(Debug, PartialEq, Eq)]
pub struct Turn {
    /// What the player is told, in order.
    pub notices: Vec<Notice>,
    /// Where the conversation goes next, or the fault that ends it.
    pub next: Result<Step, ConversationError>,
}

/// `Turn` as mathematical values, with the state that the actor is left in.
pub struct TurnModel {
    pub notices: Seq<NoticeModel>,
    pub next: Result<Step, ConversationError>,
    pub state: NpcState,
}

/// The state that a test opcode asks for: `fo` asks for a follower, `wa`
/// for an actor that waits. Other opcodes ask for nothing.
pub open spec fn required_state(test: Seq<char>) -> Option<NpcState> {
    if test == "fo"@ {
        Some(NpcState::Follower)
    } else if test == "wa"@ {
        Some(NpcState::Waiting)
    } else {
        None
    }
}

/// Whether a reply with the given test opcode is open to an actor in the
/// given state.
pub open spec fn test_passes(test: Seq<char>, state: NpcState) -> bool {
    match required_state(test) {
        Some(required) => state == required,
        None => true,
    }
}

/// The state that an effect opcode puts the actor in: `uw` makes a
/// follower, `wa` makes the actor wait, `lv` makes a stranger. Other opcodes
/// change nothing.
pub open spec fn resulting_state(result: Seq<char>) -> Option<NpcState> {
    if result == "uw"@ {
        Some(NpcState::Follower)
    } else if result == "wa"@ {
        Some(NpcState::Waiting)
    } else if result == "lv"@ {
        Some(NpcState::Stranger)
    } else {
        None
    }
}

/// The state of the actor after the effect of an accepted reply.
pub open spec fn state_after(result: Option<Seq<char>>, state: NpcState) -> NpcState {
    match result {
        Some(op) => match resulting_state(op) {
            Some(next) => next,
            None => state,
        },
        None => state,
    }
}

/// What the player is told when the test of a reply fails.
pub open spec fn test_failure(required: NpcState) -> NoticeModel {
    if required == NpcState::Follower {
        NoticeModel::FollowerRequired
    } else {
        NoticeModel::NotWaiting
    }
}

/// What the player is told about the test of an accepted reply.
pub open spec fn test_notices(test: Option<Seq<char>>) -> Seq<NoticeModel> {
    match test {
        Some(op) => if required_state(op) is None {
            seq![NoticeModel::TestNotImplemented(op)]
        } else {
            Seq::empty()
        },
        None => Seq::empty(),
    }
}

/// What the player is told about the effect of an accepted reply.
pub open spec fn result_notices(result: Option<Seq<char>>) -> Seq<NoticeModel> {
    match result {
        Some(op) => match resulting_state(op) {
            Some(next) => seq![NoticeModel::StateChanged(next)],
            None => seq![NoticeModel::ResultNotImplemented(op)],
        },
        None => Seq::empty(),
    }
}

/// What choosing the reply `line`, offered by the line `prompt`, comes to
/// for an actor in `state` and a player of the given intelligence.
pub open spec fn reply_model(
    line: LineModel,
    prompt: usize,
    state: NpcState,
    intelligence: i32,
) -> TurnModel {
    if line.intelligence is Some && intelligence < line.intelligence->0 {
        TurnModel {
            notices: seq![NoticeModel::NotEnoughIntelligence],
            next: Ok(Step::RetryAtChoice { reply: line.number, prompt }),
            state,
        }
    } else if line.test is Some && !test_passes(line.test->0, state) {
        TurnModel {
            notices: seq![test_failure(required_state(line.test->0)->0)],
            next: Ok(Step::RetryAtPrompt(prompt)),
            state,
        }
    } else {
        TurnModel {
            notices: test_notices(line.test) + result_notices(line.result),
            next: match line.response {
                Some(next) => Ok(Step::Advance(next)),
                None => Err(ConversationError::MissingResponse(line.number)),
            },
            state: state_after(line.result, state),
        }
    }
}

/// What picking the reply of rank `selection` at the line `number` comes to.
pub open spec fn turn_model(
    graph: Map<usize, LineModel>,
    number: usize,
    selection: int,
    state: NpcState,
    intelligence: i32,
) -> TurnModel {
    if !graph.contains_key(number) {
        TurnModel {
            notices: Seq::empty(),
            next: Err(ConversationError::MissingLine(number)),
            state,
        }
    } else if !graph.contains_key(graph[number].choices[selection]) {
        TurnModel {
            notices: Seq::empty(),
            next: Err(ConversationError::MissingLine(graph[number].choices[selection])),
            state,
        }
    } else {
        reply_model(graph[graph[number].choices[selection]], number, state, intelligence)
    }
}

/// A reply whose test is `fo` is open to a follower and to no other actor,
/// and one whose test is `wa` to an actor that waits and to no other.
pub proof fn lemma_test_gate(state: NpcState)
    ensures
        test_passes("fo"@, state) <==> state == NpcState::Follower,
        test_passes("wa"@, state) <==> state == NpcState::Waiting,
{
    reveal_strlit("fo");
    reveal_strlit("wa");
    assert("fo"@[0] != "wa"@[0]);
}

/// The effect of a reply, applied a second time, changes nothing.
pub proof fn lemma_effect_is_idempotent(result: Option<Seq<char>>, state: NpcState)
    ensures
        state_after(result, state_after(result, state)) == state_after(result, state),
{
}

/// A reply that asks for more intelligence than the player has is never
/// accepted: the actor stays as it is, the player is told so, and the
/// conversation goes on at the line that offered the reply.
pub proof fn lemma_intelligence_gate(
    line: LineModel,
    prompt: usize,
    state: NpcState,
    intelligence: i32,
)
    requires
        line.intelligence is Some,
        intelligence < line.intelligence->0,
    ensures
        reply_model(line, prompt, state, intelligence).next == Ok::<Step, ConversationError>(
            Step::RetryAtChoice { reply: line.number, prompt },
        ),
        reply_model(line, prompt, state, intelligence).next->Ok_0.goes_to() == prompt,
        reply_model(line, prompt, state, intelligence).state == state,
        reply_model(line, prompt, state, intelligence).notices
            == seq![NoticeModel::NotEnoughIntelligence],
{
}

/// A reply whose test fails is not accepted: the actor stays as it is, and
/// the conversation goes back to the line that offered the reply.
pub proof fn lemma_test_failure_retries(
    line: LineModel,
    prompt: usize,
    state: NpcState,
    intelligence: i32,
)
    requires
        line.intelligence is Some ==> intelligence >= line.intelligence->0,
        line.test is Some,
        !test_passes(line.test->0, state),
    ensures
        reply_model(line, prompt, state, intelligence).next == Ok::<Step, ConversationError>(
            Step::RetryAtPrompt(prompt),
        ),
        reply_model(line, prompt, state, intelligence).next->Ok_0.goes_to() == prompt,
        reply_model(line, prompt, state, intelligence).state == state,
{
}

/// The actor changes its state in one way only: a reply passes both gates,
/// and its effect opcode names the new state.
pub proof fn lemma_state_changes_by_effect_only(
    graph: Map<usize, LineModel>,
    number: usize,
    selection: int,
    state: NpcState,
    intelligence: i32,
)
    requires
        turn_model(graph, number, selection, state, intelligence).state != state,
    ensures
        graph.contains_key(number),
        graph.contains_key(graph[number].choices[selection]),
        ({
            let line = graph[graph[number].choices[selection]];
            &&& line.intelligence is Some ==> intelligence >= line.intelligence->0
            &&& line.test is Some ==> test_passes(line.test->0, state)
            &&& line.result is Some
            &&& resulting_state(line.result->0) == Some(
                turn_model(graph, number, selection, state, intelligence).state,
            )
        }),
{
}

/// Whether the graph holds every one of `choices`.
pub open spec fn all_present(graph: Map<usize, LineModel>, choices: Seq<usize>) -> bool {
    forall|i: int| 0 <= i < choices.len() ==> graph.contains_key(#[trigger] choices[i])
}

/// Whether `missing` is the first of `choices` that the graph does not hold.
pub open spec fn first_missing(
    graph: Map<usize, LineModel>,
    choices: Seq<usize>,
    missing: usize,
) -> bool {
    exists|i: int|
        0 <= i < choices.len() && #[trigger] choices[i] == missing && !graph.contains_key(missing)
            && all_present(graph, choices.take(i))
}

/// The texts of the replies `choices`, in order.
pub open spec fn option_texts(graph: Map<usize, LineModel>, choices: Seq<usize>) -> Seq<Seq<char>> {
    choices.map_values(|number: usize| graph[number].text)
}

/// The characters of each of `options`.
pub open spec fn option_views(options: Seq<String>) -> Seq<Seq<char>> {
    options.map_values(|option: String| option@)
}

/// What the actor named `actor` says with `line` to a player: the name of
/// the actor, then the text of the line for the player's gender, in which
/// `@pcname@` stands for the name of the player.
pub open spec fn prompt_text(
    actor: Seq<char>,
    line: LineModel,
    player: Seq<char>,
    gender: Gender,
) -> Seq<char> {
    actor + ": "@ + replace_all(line.display_text(gender), "@pcname@"@, player)
}

/// The words of a notice about the actor named `actor`.
pub open spec fn notice_text(notice: NoticeModel, actor: Seq<char>) -> Seq<char> {
    match notice {
        NoticeModel::NotEnoughIntelligence => "Not enough intelligence to say this."@,
        NoticeModel::FollowerRequired => actor + " must be a follower for this action.\n"@,
        NoticeModel::NotWaiting => actor + " is not currently waiting.\n"@,
        NoticeModel::TestNotImplemented(op) => "Test opcode ["@ + op
            + "] is not yet implemented!"@,
        NoticeModel::StateChanged(state) => match state {
            NpcState::Stranger => "✔ "@ + actor + " is now a stranger.\n"@,
            NpcState::Waiting => "✔ "@ + actor + " is now waiting where you left them.\n"@,
            NpcState::Follower => "✔ "@ + actor + " is now a follower.\n"@,
        },
        NoticeModel::ResultNotImplemented(op) => if op == "so"@ {
            "Result opcode [so] (spread out) is not yet implemented!"@
        } else if op == "sc"@ {
            "Result opcode [sc] (stay close) is not yet implemented!"@
        } else {
            "Result opcode ["@ + op + "] is not yet implemented!"@
        },
    }
}

/// The words with which a conversation with the actor named `actor` opens.
pub open spec fn greeting_text(state: NpcState, actor: Seq<char>) -> Seq<char> {
    match state {
        NpcState::Stranger => "You approach the stranger. They introduce themselves as "@ + actor
            + "\n"@,
        NpcState::Waiting => "You approach "@ + actor + ". They have been waiting for you.\n"@,
        NpcState::Follower => "You turn to "@ + actor + ".\n"@,
    }
}

/// The line at which a conversation begins.
pub const ENTRY: usize = 1;

/// `before` and `after` in one text.
fn pair(before: &str, after: &str) -> (r: String)
    ensures
        r@ == before@ + after@,
{
    let mut r = before.to_owned();
    r.append(after);
    r
}

/// `before`, `middle` and `after` in one text.
fn join(before: &str, middle: &str, after: &str) -> (r: String)
    ensures
        r@ == before@ + middle@ + after@,
{
    let mut r = before.to_owned();
    r.append(middle);
    r.append(after);
    r
}

/// The state that a test opcode asks for.
pub fn required_by(test: &str) -> (r: Option<NpcState>)
    ensures
        r == required_state(test@),
{
    if same_text(test, "fo") {
        Some(NpcState::Follower)
    } else if same_text(test, "wa") {
        Some(NpcState::Waiting)
    } else {
        None
    }
}

/// The state that an effect opcode puts the actor in.
pub fn resulting_from(result: &str) -> (r: Option<NpcState>)
    ensures
        r == resulting_state(result@),
{
    if same_text(result, "uw") {
        Some(NpcState::Follower)
    } else if same_text(result, "wa") {
        Some(NpcState::Waiting)
    } else if same_text(result, "lv") {
        Some(NpcState::Stranger)
    } else {
        None
    }
}

/// A reply that is not accepted, for want of intelligence or because its
/// test fails, does not end the conversation. The actor stays as it is, and
/// the line that offered the reply is presented again: the player is asked
/// once more, with the same prompt and the same options.
pub proof fn lemma_refused_reply_is_offered_again(
    npc: Npc,
    player: Player,
    number: usize,
    selection: int,
    again: Result<Presentation, ConversationError>,
)
    requires
        number != 0,
        npc.dialog_tree@.contains_key(number),
        0 <= selection < npc.dialog_tree@[number].choices.len(),
        all_present(npc.dialog_tree@, npc.dialog_tree@[number].choices),
        ({
            let line = npc.dialog_tree@[npc.dialog_tree@[number].choices[selection]];
            ||| line.intelligence is Some && player.intelligence < line.intelligence->0
            ||| line.test is Some && !test_passes(line.test->0, npc.state)
        }),
        npc.presents(
            turn_model(
                npc.dialog_tree@,
                number,
                selection,
                npc.state,
                player.intelligence,
            ).next->Ok_0.goes_to(),
            &player,
            again,
        ),
    ensures
        turn_model(npc.dialog_tree@, number, selection, npc.state, player.intelligence).next is Ok,
        turn_model(
            npc.dialog_tree@,
            number,
            selection,
            npc.state,
            player.intelligence,
        ).next->Ok_0.goes_to() == number,
        turn_model(npc.dialog_tree@, number, selection, npc.state, player.intelligence).state
            == npc.state,
        again matches Ok(Presentation::Ask { prompt, options }) && prompt@ == prompt_text(
            npc.name@,
            npc.dialog_tree@[number],
            player.name@,
            player.gender,
        ) && option_views(options@) == option_texts(
            npc.dialog_tree@,
            npc.dialog_tree@[number].choices,
        ),
{
    let choices = npc.dialog_tree@[number].choices;
    assert(npc.dialog_tree@.contains_key(choices[selection]));
}

impl Notice {
    /// The words of the notice about the actor named `actor`.
    pub fn message(&self, actor: &str) -> (r: String)
        ensures
            r@ == notice_text(self@, actor@),
    {
        match self {
            Notice::NotEnoughIntelligence => "Not enough intelligence to say this.".to_owned(),
            Notice::FollowerRequired => pair(actor, " must be a follower for this action.\n"),
            Notice::NotWaiting => pair(actor, " is not currently waiting.\n"),
            Notice::TestNotImplemented(op) => join(
                "Test opcode [",
                op.as_str(),
                "] is not yet implemented!",
            ),
            Notice::StateChanged(state) => match state {
                NpcState::Stranger => join("✔ ", actor, " is now a stranger.\n"),
                NpcState::Waiting => join("✔ ", actor, " is now waiting where you left them.\n"),
                NpcState::Follower => join("✔ ", actor, " is now a follower.\n"),
            },
            Notice::ResultNotImplemented(op) => if same_text(op.as_str(), "so") {
                "Result opcode [so] (spread out) is not yet implemented!".to_owned()
            } else if same_text(op.as_str(), "sc") {
                "Result opcode [sc] (stay close) is not yet implemented!".to_owned()
            } else {
                join("Result opcode [", op.as_str(), "] is not yet implemented!")
            },
        }
    }
}

impl Step {
    /// The line at which the conversation goes on.
    pub fn target(&self) -> (r: usize)
        ensures
            r == self.goes_to(),
    {
        match self {
            Step::Advance(next) => *next,
            Step::RetryAtChoice { reply: _, prompt } => *prompt,
            Step::RetryAtPrompt(prompt) => *prompt,
        }
    }
}

impl Npc {
    /// An actor with the given name, dialog graph and state.
    pub fn new(name: &str, dialog_tree: DialogTree, state: NpcState) -> (npc: Npc)
        ensures
            npc.name@ == name@,
            npc.state == state,
            npc.dialog_tree == dialog_tree,
    {
        Npc { name: name.to_owned(), state, dialog_tree }
    }

    /// An actor met by chance: it speaks from the given graph, and its name
    /// and its state are drawn at random.
    pub fn rand(dialog_tree: DialogTree) -> (npc: Npc)
        ensures
            npc.dialog_tree == dialog_tree,
            exists|i: int| 0 <= i < NAMES@.len() && npc.name@ == (#[trigger] NAMES@[i])@,
    {
        Npc { name: choose_name().to_owned(), state: NpcState::random(), dialog_tree }
    }

    /// Puts the actor in `state`, and returns the notice that says so.
    pub fn set_state(&mut self, state: NpcState) -> (notice: Notice)
        ensures
            final(self).state == state,
            final(self).name == old(self).name,
            final(self).dialog_tree == old(self).dialog_tree,
            notice@ == NoticeModel::StateChanged(state),
    {
        self.state = state;
        Notice::StateChanged(state)
    }

    /// The words with which a conversation with the actor opens.
    pub fn greeting(&self) -> (r: String)
        ensures
            r@ == greeting_text(self.state, self.name@),
    {
        match self.state {
            NpcState::Stranger => join(
                "You approach the stranger. They introduce themselves as ",
                self.name.as_str(),
                "\n",
            ),
            NpcState::Waiting => join(
                "You approach ",
                self.name.as_str(),
                ". They have been waiting for you.\n",
            ),
            NpcState::Follower => join("You turn to ", self.name.as_str(), ".\n"),
        }
    }

    /// Opens a conversation: the greeting, and what is found at the entry
    /// line.
    pub fn interact(&self, player: &Player) -> (r: (String, Result<Presentation, ConversationError>))
        ensures
            r.0@ == greeting_text(self.state, self.name@),
            self.presents(ENTRY, player, r.1),
    {
        (self.greeting(), self.advance(ENTRY, player))
    }

    /// Whether `r` is what the actor presents to `player` at the line
    /// `number`.
    pub open spec fn presents(
        &self,
        number: usize,
        player: &Player,
        r: Result<Presentation, ConversationError>,
    ) -> bool {
        let graph = self.dialog_tree@;
        if number == 0 {
            r matches Ok(Presentation::Finished)
        } else if !graph.contains_key(number) {
            r == Err::<Presentation, ConversationError>(ConversationError::MissingLine(number))
        } else if graph[number].choices.len() == 0 {
            r matches Ok(Presentation::Finished)
        } else if all_present(graph, graph[number].choices) {
            r matches Ok(Presentation::Ask { prompt, options }) && prompt@ == prompt_text(
                self.name@,
                graph[number],
                player.name@,
                player.gender,
            ) && option_views(options@) == option_texts(graph, graph[number].choices)
        } else {
            r matches Err(ConversationError::MissingLine(missing)) && first_missing(
                graph,
                graph[number].choices,
                missing,
            )
        }
    }

    /// Looks at the line `number`. The conversation is over at line 0 and at
    /// a line without choices. At any other line the player is to be asked
    /// for one of its choices. A line that the graph does not hold, be it
    /// `number` or one of the choices, is a fault.
    pub fn advance(&self, number: usize, player: &Player) -> (r: Result<
        Presentation,
        ConversationError,
    >)
        ensures
            self.presents(number, player, r),
            number == 0 ==> r matches Ok(Presentation::Finished),
            self.dialog_tree@.contains_key(number) && self.dialog_tree@[number].choices.len() == 0
                ==> r matches Ok(Presentation::Finished),
    {
        if number == 0 {
            return Ok(Presentation::Finished);
        }
        let npc_line = match self.dialog_tree.get(number) {
            Some(line) => line,
            None => {
                return Err(ConversationError::MissingLine(number));
            },
        };
        if npc_line.choices.len() == 0 {
            return Ok(Presentation::Finished);
        }
        let ghost graph = self.dialog_tree@;
        let ghost choices = graph[number].choices;
        let mut options: Vec<String> = Vec::new();
        let mut i: usize = 0;
        while i < npc_line.choices.len()
            invariant
                i <= npc_line.choices.len(),
                number != 0,
                graph == self.dialog_tree@,
                graph.contains_key(number),
                choices == graph[number].choices,
                npc_line.choices@ == choices,
                all_present(graph, choices.take(i as int)),
                option_views(options@) == option_texts(graph, choices.take(i as int)),
            decreases npc_line.choices.len() - i,
        {
            let choice = npc_line.choices[i];
            match self.dialog_tree.get(choice) {
                Some(line) => {
                    let ghost before = options@;
                    options.push(line.text.clone());
                    assert(choices.take(i + 1) =~= choices.take(i as int).push(choice));
                    assert(option_views(options@) =~= option_views(before).push(line.text@));
                    assert(option_texts(graph, choices.take(i + 1)) =~= option_texts(
                        graph,
                        choices.take(i as int),
                    ).push(graph[choice].text));
                },
                None => {
                    assert(choices[i as int] == choice);
                    assert(!all_present(graph, choices));
                    assert(first_missing(graph, choices, choice));
                    return Err(ConversationError::MissingLine(choice));
                },
            }
            i = i + 1;
        }
        assert(choices.take(choices.len() as int) =~= choices);
        let said = replace(npc_line.get_text(&player.gender), "@pcname@", player.name.as_str());
        let prompt = join(self.name.as_str(), ": ", said.as_str());
        Ok(Presentation::Ask { prompt, options })
    }

    /// Handles the reply of rank `selection` among the choices of the line
    /// `number`: tests its gates, applies its effect, and says what the
    /// player is told and where the conversation goes next.
    pub fn respond(&mut self, number: usize, selection: usize, player: &Player) -> (turn: Turn)
        requires
            old(self).dialog_tree@.contains_key(number) ==> selection < old(
                self,
            ).dialog_tree@[number].choices.len(),
        ensures
            final(self).name == old(self).name,
            final(self).dialog_tree == old(self).dialog_tree,
            final(self).state == turn_model(
                old(self).dialog_tree@,
                number,
                selection as int,
                old(self).state,
                player.intelligence,
            ).state,
            notice_views(turn.notices@) == turn_model(
                old(self).dialog_tree@,
                number,
                selection as int,
                old(self).state,
                player.intelligence,
            ).notices,
            turn.next == turn_model(
                old(self).dialog_tree@,
                number,
                selection as int,
                old(self).state,
                player.intelligence,
            ).next,
    {
        let mut notices: Vec<Notice> = Vec::new();
        let npc_line = match self.dialog_tree.get(number) {
            Some(line) => line,
            None => {
                assert(notice_views(notices@) =~= Seq::empty());
                return Turn { notices, next: Err(ConversationError::MissingLine(number)) };
            },
        };
        let chosen = npc_line.choices[selection];
        let pc_line = match self.dialog_tree.get(chosen) {
            Some(line) => line,
            None => {
                assert(notice_views(notices@) =~= Seq::empty());
                return Turn { notices, next: Err(ConversationError::MissingLine(chosen)) };
            },
        };
        let ghost line = pc_line@;
        if let Some(intelligence) = pc_line.intelligence {
            if player.intelligence < intelligence {
                notices.push(Notice::NotEnoughIntelligence);
                assert(notice_views(notices@) =~= seq![NoticeModel::NotEnoughIntelligence]);
                return Turn {
                    notices,
                    next: Ok(Step::RetryAtChoice { reply: pc_line.number, prompt: number }),
                };
            }
        }
        if let Some(test) = &pc_line.test {
            match required_by(test.as_str()) {
                Some(required) => {
                    if self.state != required {
                        notices.push(
                            if required == NpcState::Follower {
                                Notice::FollowerRequired
                            } else {
                                Notice::NotWaiting
                            },
                        );
                        assert(notice_views(notices@) =~= seq![test_failure(required)]);
                        return Turn { notices, next: Ok(Step::RetryAtPrompt(number)) };
                    }
                },
                None => {
                    notices.push(Notice::TestNotImplemented(test.clone()));
                },
            }
        }
        assert(notice_views(notices@) =~= test_notices(line.test));
        let response = pc_line.response;
        let reply_number = pc_line.number;
        let result = match &pc_line.result {
            Some(op) => Some(op.clone()),
            None => None,
        };
        if let Some(op) = result {
            match resulting_from(op.as_str()) {
                Some(state) => {
                    let notice = self.set_state(state);
                    notices.push(notice);
                },
                None => {
                    notices.push(Notice::ResultNotImplemented(op));
                },
            }
        }
        assert(notice_views(notices@) =~= test_notices(line.test) + result_notices(line.result));
        Turn {
            notices,
            next: match response {
                Some(next) => Ok(Step::Advance(next)),
                None => Err(ConversationError::MissingResponse(reply_number)),
            },
        }
    }
}

} // verus!
