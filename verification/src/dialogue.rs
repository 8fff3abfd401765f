//! The interactive mode: what each line does to the conversation.
use crate::chat::{encode_chat_prompt, parts_ids, prompt_parts, turn_views, ThinkMode};
use crate::cli::{command_of, parse_command, Command};
use crate::cli_laws::law_commands;
use crate::compressor::filled;
use crate::forward::fresh_layers;
use crate::session::{Session, SessionView};
use crate::tokenizer::Vocab;
use vstd::prelude::*;

verus! {

/// A conversation.
#[derive(Debug)]
pub struct Dialogue {
    /// What was said and answered, oldest first.
    pub history: Vec<(String, String)>,
}

impl View for Dialogue {
    type V = Seq<(Seq<char>, Seq<char>)>;

    open spec fn view(&self) -> Seq<(Seq<char>, Seq<char>)> {
        turn_views(self.history@)
    }
}

/// The conversation after a line: only a wish to forget it changes it.
pub open spec fn turns_after(
    turns: Seq<(Seq<char>, Seq<char>)>,
    line: Seq<char>,
) -> Seq<(Seq<char>, Seq<char>)> {
    if command_of(line) is Clear {
        Seq::empty()
    } else {
        turns
    }
}

/// The session after a line: where the conversation is forgotten, it starts over.
pub open spec fn session_after(s: SessionView, line: Seq<char>) -> SessionView {
    if command_of(line) is Clear {
        SessionView {
            layers: fresh_layers(s.dims, s.ctx_size),
            tokens: Seq::empty(),
            logits: filled(s.logits.len(), 0),
            ..s
        }
    } else {
        s
    }
}

impl Dialogue {
    /// Start a conversation.
    pub fn new() -> (r: Dialogue)
        ensures
            r@ == Seq::<(Seq<char>, Seq<char>)>::empty(),
    {
        let r = Dialogue { history: Vec::new() };
        assert(r@ =~= Seq::empty());
        r
    }

    /// Take a line that has no blanks round it, and say what it asks for.
    pub fn take_line(&mut self, session: &mut Session, line: &str) -> (r: Command)
        requires
            old(session).wf(),
        ensures
            final(session).wf(),
            r@ == command_of(line@),
            final(self)@ == turns_after(old(self)@, line@),
            final(session)@ == session_after(old(session)@, line@),
    {
        let command = parse_command(line);
        if let Command::Clear = command {
            self.history.clear();
            session.invalidate();
            assert(self@ =~= Seq::empty());
        }
        command
    }

    /// The tokens of the prompt for what is said next.
    pub fn prompt(
        &self,
        line: &str,
        system_prompt: Option<&str>,
        think_mode: ThinkMode,
        vocab: &Vocab,
    ) -> (r: Vec<i32>)
        ensures
            r@ == parts_ids(
                vocab,
                prompt_parts(
                    self@,
                    line@,
                    match system_prompt {
                        Some(s) => Some(s@),
                        None => None,
                    },
                    think_mode,
                ),
            ),
    {
        encode_chat_prompt(&self.history, line, system_prompt, think_mode, vocab)
    }

    /// Keep what was said and what the model answered.
    pub fn answered(&mut self, line: String, response: String)
        ensures
            final(self)@ == old(self)@.push((line@, response@)),
    {
        self.history.push((line, response));
        assert(self@ =~= old(self)@.push((line@, response@)));
    }
}

/// What happens in a conversation.
pub ghost enum Event {
    /// A line was taken.
    Line(Seq<char>),
    /// What was said and answered was kept.
    Answer(Seq<char>, Seq<char>),
}

/// The conversation that events leave of an empty one.
pub open spec fn turns_of(events: Seq<Event>) -> Seq<(Seq<char>, Seq<char>)>
    decreases events.len(),
{
    if events.len() == 0 {
        Seq::empty()
    } else {
        let before = turns_of(events.drop_last());
        match events.last() {
            Event::Line(line) => turns_after(before, line),
            Event::Answer(line, response) => before.push((line, response)),
        }
    }
}

/// An event that forgets the conversation.
pub open spec fn forgets(e: Event) -> bool {
    e matches Event::Line(line) && command_of(line) is Clear
}

/// The answers among events.
pub open spec fn answers(events: Seq<Event>) -> Seq<(Seq<char>, Seq<char>)>
    decreases events.len(),
{
    if events.len() == 0 {
        Seq::empty()
    } else {
        match events.last() {
            Event::Line(_) => answers(events.drop_last()),
            Event::Answer(line, response) => answers(events.drop_last()).push((line, response)),
        }
    }
}

/// The conversation holds the answers since it was last forgotten, in order, and nothing else:
/// `k` is the number of events up to and with the last one that forgets, or 0 where none does.
pub proof fn law_conversation_since_clear(events: Seq<Event>, k: int)
    requires
        0 <= k <= events.len(),
        k > 0 ==> forgets(events[k - 1]),
        forall|i: int| k <= i < events.len() ==> !forgets(#[trigger] events[i]),
    ensures
        turns_of(events) == answers(events.skip(k)),
    decreases events.len() - k,
{
    let rest = events.skip(k);
    if k == events.len() {
        assert(rest.len() == 0);
        if k > 0 {
            assert(events.last() == events[k - 1]);
        }
    } else {
        let front = events.drop_last();
        assert forall|i: int| k <= i < front.len() implies !forgets(#[trigger] front[i]) by {
            assert(front[i] == events[i]);
        }
        law_conversation_since_clear(front, k);
        assert(rest.drop_last() =~= front.skip(k));
        assert(rest.last() == events.last());
        assert(!forgets(events[events.len() - 1]));
    }
}

/// One line forgets the conversation, and with it all that the session was fed: its caches are fresh
/// and its scores are zero. Every other line leaves both as they are.
pub proof fn law_one_line_forgets(
    turns: Seq<(Seq<char>, Seq<char>)>,
    s: SessionView,
    line: Seq<char>,
    i: int,
)
    ensures
        line == "/clear"@ ==> {
            &&& turns_after(turns, line).len() == 0
            &&& session_after(s, line).tokens.len() == 0
            &&& session_after(s, line).layers == fresh_layers(s.dims, s.ctx_size)
            &&& session_after(s, line).logits.len() == s.logits.len()
            &&& 0 <= i < s.logits.len() ==> session_after(s, line).logits[i] == 0
            &&& session_after(s, line).hc == s.hc
        },
        line != "/clear"@ ==> turns_after(turns, line) == turns && session_after(s, line) == s,
{
    law_commands(line);
}

} // verus!
