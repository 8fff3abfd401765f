//! Chat prompts: the parts of a conversation in the order in which the model reads them.
//!
//! The markers between the parts are tokens of their own. They are never cut up by the tokenizer as
//! if they were text.
use crate::bpe::pieces_ids;
use crate::tokenizer::{pieces, Vocab};
use vstd::prelude::*;
use vstd::utf8::encode_utf8;

verus! {

/// How much the model is to think before it answers.
#[derive(Debug, Clone, Copy, PartialEq, Eq, Structural)]
pub enum ThinkMode {
    /// The default.
    Auto,
    /// Think.
    Normal,
    /// Think as much as possible.
    Max,
    /// Do not think.
    Off,
}

/// A marker between the parts of a conversation.
#[derive(Debug, Clone, Copy, PartialEq, Eq, Structural)]
pub enum Marker {
    /// The beginning of the text.
    Bos,
    /// The user speaks.
    User,
    /// The assistant speaks.
    Assistant,
    /// The assistant starts to think.
    ThinkStart,
    /// The assistant has thought.
    ThinkEnd,
}

/// A part of a prompt.
#[derive(Debug)]
pub enum PromptPart {
    /// A marker.
    Marker(Marker),
    /// What somebody said.
    Text(String),
}

/// A part of a prompt.
pub ghost enum PartView {
    /// A marker.
    Marker(Marker),
    /// What somebody said.
    Text(Seq<char>),
}

impl View for PromptPart {
    type V = PartView;

    open spec fn view(&self) -> PartView {
        match self {
            PromptPart::Marker(m) => PartView::Marker(*m),
            PromptPart::Text(s) => PartView::Text(s@),
        }
    }
}

/// The parts that a list of parts stands for.
pub open spec fn part_views(parts: Seq<PromptPart>) -> Seq<PartView> {
    Seq::new(parts.len(), |i: int| parts[i]@)
}

/// The turns that a list of turns stands for.
pub open spec fn turn_views(history: Seq<(String, String)>) -> Seq<(Seq<char>, Seq<char>)> {
    Seq::new(history.len(), |i: int| (history[i].0@, history[i].1@))
}

/// One of the parts, or none.
pub open spec fn part_if(wanted: bool, m: Marker) -> Seq<PartView> {
    if wanted {
        seq![PartView::Marker(m)]
    } else {
        seq![]
    }
}

/// A turn of the past: what the user said, and what the assistant answered.
pub open spec fn turn_parts(think: ThinkMode, user: Seq<char>, answer: Seq<char>) -> Seq<PartView> {
    seq![
        PartView::Marker(Marker::User),
        PartView::Text(user),
        PartView::Marker(Marker::Assistant),
    ] + part_if(think != ThinkMode::Off, Marker::ThinkStart) + part_if(
        think == ThinkMode::Max,
        Marker::ThinkStart,
    ) + part_if(think == ThinkMode::Max, Marker::ThinkEnd) + seq![PartView::Text(answer)]
        + part_if(think != ThinkMode::Off, Marker::ThinkEnd)
}

/// The turns of the past.
pub open spec fn history_parts(
    think: ThinkMode,
    history: Seq<(Seq<char>, Seq<char>)>,
) -> Seq<PartView>
    decreases history.len(),
{
    if history.len() == 0 {
        seq![]
    } else {
        history_parts(think, history.drop_last()) + turn_parts(
            think,
            history.last().0,
            history.last().1,
        )
    }
}

/// What the user says now, and the invitation to answer.
pub open spec fn question_parts(think: ThinkMode, user: Seq<char>) -> Seq<PartView> {
    seq![
        PartView::Marker(Marker::User),
        PartView::Text(user),
        PartView::Marker(Marker::Assistant),
    ] + part_if(think != ThinkMode::Off, Marker::ThinkStart) + part_if(
        think == ThinkMode::Max,
        Marker::ThinkEnd,
    )
}

/// The parts of a prompt: the system prompt, the turns of the past, and the question.
pub open spec fn prompt_parts(
    history: Seq<(Seq<char>, Seq<char>)>,
    user: Seq<char>,
    system: Option<Seq<char>>,
    think: ThinkMode,
) -> Seq<PartView> {
    seq![
        PartView::Marker(Marker::Bos),
        PartView::Text(
            match system {
                Some(s) => s,
                None => "You are a helpful assistant"@,
            },
        ),
    ] + history_parts(think, history) + question_parts(think, user)
}

fn push_marker(parts: &mut Vec<PromptPart>, m: Marker)
    ensures
        part_views(final(parts)@) == part_views(old(parts)@).push(PartView::Marker(m)),
{
    parts.push(PromptPart::Marker(m));
    assert(part_views(parts@) =~= part_views(old(parts)@).push(PartView::Marker(m)));
}

fn push_text(parts: &mut Vec<PromptPart>, t: &str)
    ensures
        part_views(final(parts)@) == part_views(old(parts)@).push(PartView::Text(t@)),
{
    parts.push(PromptPart::Text(t.to_owned()));
    assert(part_views(parts@) =~= part_views(old(parts)@).push(PartView::Text(t@)));
}

fn push_turn(parts: &mut Vec<PromptPart>, think: ThinkMode, user: &str, answer: &str)
    ensures
        part_views(final(parts)@) == part_views(old(parts)@) + turn_parts(think, user@, answer@),
{
    push_marker(parts, Marker::User);
    push_text(parts, user);
    push_marker(parts, Marker::Assistant);
    if think != ThinkMode::Off {
        push_marker(parts, Marker::ThinkStart);
    }
    if think == ThinkMode::Max {
        push_marker(parts, Marker::ThinkStart);
        push_marker(parts, Marker::ThinkEnd);
    }
    push_text(parts, answer);
    if think != ThinkMode::Off {
        push_marker(parts, Marker::ThinkEnd);
    }
    assert(part_views(parts@) =~= part_views(old(parts)@) + turn_parts(think, user@, answer@));
}

/// List the parts of a prompt.
pub fn chat_parts(
    history: &Vec<(String, String)>,
    current_user: &str,
    system_prompt: Option<&str>,
    think_mode: ThinkMode,
) -> (r: Vec<PromptPart>)
    ensures
        part_views(r@) == prompt_parts(
            turn_views(history@),
            current_user@,
            match system_prompt {
                Some(s) => Some(s@),
                None => None,
            },
            think_mode,
        ),
{
    let ghost turns = turn_views(history@);
    let mut r: Vec<PromptPart> = Vec::new();
    push_marker(&mut r, Marker::Bos);
    match system_prompt {
        Some(s) => push_text(&mut r, s),
        None => push_text(&mut r, "You are a helpful assistant"),
    }
    let ghost opening = part_views(r@);
    let mut i: usize = 0;
    assert(turns.take(0) =~= seq![]);
    assert(opening + seq![] =~= opening);
    while i < history.len()
        invariant
            i <= history@.len(),
            turns == turn_views(history@),
            part_views(r@) == opening + history_parts(think_mode, turns.take(i as int)),
        decreases history@.len() - i,
    {
        proof {
            assert(turns.take(i + 1).drop_last() =~= turns.take(i as int));
            assert(turns.take(i + 1).last() == (history@[i as int].0@, history@[i as int].1@));
        }
        let ghost before = part_views(r@);
        push_turn(&mut r, think_mode, history[i].0.as_str(), history[i].1.as_str());
        assert(part_views(r@) =~= opening + history_parts(think_mode, turns.take(i + 1)));
        i = i + 1;
    }
    assert(turns.take(turns.len() as int) =~= turns);
    let ghost before = part_views(r@);
    push_marker(&mut r, Marker::User);
    push_text(&mut r, current_user);
    push_marker(&mut r, Marker::Assistant);
    if think_mode != ThinkMode::Off {
        push_marker(&mut r, Marker::ThinkStart);
    }
    if think_mode == ThinkMode::Max {
        push_marker(&mut r, Marker::ThinkEnd);
    }
    proof {
        assert(part_views(r@) =~= before + question_parts(think_mode, current_user@));
        assert(opening =~= seq![
            PartView::Marker(Marker::Bos),
            PartView::Text(
                match system_prompt {
                    Some(s) => s@,
                    None => "You are a helpful assistant"@,
                },
            ),
        ]);
        assert(part_views(r@) =~= prompt_parts(
            turns,
            current_user@,
            match system_prompt {
                Some(s) => Some(s@),
                None => None,
            },
            think_mode,
        ));
    }
    r
}

// Markers in a vocabulary

/// The first of some names, from name `i` on, that is a token; the fallback if none is.
pub open spec fn special_token(
    ids: Map<Seq<char>, i32>,
    names: Seq<Seq<char>>,
    i: nat,
    fallback: Seq<char>,
) -> Seq<char>
    decreases names.len() - i,
{
    if i >= names.len() {
        fallback
    } else if ids.contains_key(names[i as int]) && ids[names[i as int]] >= 0 {
        names[i as int]
    } else {
        special_token(ids, names, i + 1, fallback)
    }
}

/// The names that a list of names stands for.
pub open spec fn name_views(names: Seq<&str>) -> Seq<Seq<char>> {
    Seq::new(names.len(), |i: int| names[i]@)
}

/// Get the text of a special token, trying several names.
pub fn get_special_token(vocab: &Vocab, candidates: &[&str], fallback: &str) -> (r: String)
    ensures
        r@ == special_token(vocab.ids(), name_views(candidates@), 0, fallback@),
{
    let ghost names = name_views(candidates@);
    let mut i: usize = 0;
    while i < candidates.len()
        invariant
            i <= candidates@.len(),
            names == name_views(candidates@),
            special_token(vocab.ids(), names, 0, fallback@) == special_token(
                vocab.ids(),
                names,
                i as nat,
                fallback@,
            ),
        decreases candidates@.len() - i,
    {
        let name: &str = candidates[i];
        assert(names[i as int] == name@);
        match vocab.token_id(name) {
            Some(id) => {
                if id >= 0 {
                    return name.to_owned();
                }
            },
            None => {},
        }
        i = i + 1;
    }
    fallback.to_owned()
}

/// The text of a marker.
pub open spec fn marker_text(vocab: &Vocab, m: Marker) -> Seq<char> {
    let ids = vocab.ids();
    match m {
        Marker::Bos => if 0 <= vocab.bos_id < vocab.texts().len() as usize as i32 {
            vocab.texts()[vocab.bos_id as int]
        } else {
            "<s>"@
        },
        Marker::User => special_token(ids, seq!["<｜User｜>"@, "<|User|>"@], 0, "User"@),
        Marker::Assistant => special_token(
            ids,
            seq!["<｜Assistant｜>"@, "<|Assistant|>"@],
            0,
            "Assistant"@,
        ),
        Marker::ThinkStart => special_token(ids, seq!["<think>"@], 0, "<think>"@),
        Marker::ThinkEnd => special_token(ids, seq!["</think>"@], 0, "</think>"@),
    }
}

fn marker_string(vocab: &Vocab, m: Marker) -> (r: String)
    ensures
        r@ == marker_text(vocab, m),
{
    match m {
        Marker::Bos => match vocab.token_text(vocab.bos_id) {
            Some(t) => t.to_owned(),
            None => "<s>".to_owned(),
        },
        Marker::User => {
            let names: [&str; 2] = ["<｜User｜>", "<|User|>"];
            assert(name_views(names@) =~= seq!["<｜User｜>"@, "<|User|>"@]);
            get_special_token(vocab, &names, "User")
        },
        Marker::Assistant => {
            let names: [&str; 2] = ["<｜Assistant｜>", "<|Assistant|>"];
            assert(name_views(names@) =~= seq!["<｜Assistant｜>"@, "<|Assistant|>"@]);
            get_special_token(vocab, &names, "Assistant")
        },
        Marker::ThinkStart => {
            let names: [&str; 1] = ["<think>"];
            assert(name_views(names@) =~= seq!["<think>"@]);
            get_special_token(vocab, &names, "<think>")
        },
        Marker::ThinkEnd => {
            let names: [&str; 1] = ["</think>"];
            assert(name_views(names@) =~= seq!["</think>"@]);
            get_special_token(vocab, &names, "</think>")
        },
    }
}

/// The ids of a text.
pub open spec fn text_ids(vocab: &Vocab, t: Seq<char>) -> Seq<i32> {
    pieces_ids(pieces(encode_utf8(t), 0), vocab.ids(), vocab.ranks())
}

/// The ids of a marker: its own id, where the vocabulary has one.
pub open spec fn marker_ids(vocab: &Vocab, m: Marker) -> Seq<i32> {
    let t = marker_text(vocab, m);
    if m == Marker::Bos && vocab.bos_id >= 0 {
        seq![vocab.bos_id]
    } else if m != Marker::Bos && vocab.ids().contains_key(t) && vocab.ids()[t] >= 0 {
        seq![vocab.ids()[t]]
    } else {
        text_ids(vocab, t)
    }
}

/// The text of a part.
pub open spec fn part_text(vocab: &Vocab, p: PartView) -> Seq<char> {
    match p {
        PartView::Marker(m) => marker_text(vocab, m),
        PartView::Text(t) => t,
    }
}

/// The ids of a part.
pub open spec fn part_ids(vocab: &Vocab, p: PartView) -> Seq<i32> {
    match p {
        PartView::Marker(m) => marker_ids(vocab, m),
        PartView::Text(t) => text_ids(vocab, t),
    }
}

/// The text of some parts.
pub open spec fn parts_text(vocab: &Vocab, parts: Seq<PartView>) -> Seq<char>
    decreases parts.len(),
{
    if parts.len() == 0 {
        seq![]
    } else {
        parts_text(vocab, parts.drop_last()) + part_text(vocab, parts.last())
    }
}

/// The ids of some parts.
pub open spec fn parts_ids(vocab: &Vocab, parts: Seq<PartView>) -> Seq<i32>
    decreases parts.len(),
{
    if parts.len() == 0 {
        seq![]
    } else {
        parts_ids(vocab, parts.drop_last()) + part_ids(vocab, parts.last())
    }
}

/// Write a prompt as text.
pub fn build_chat_prompt(
    history: &Vec<(String, String)>,
    current_user: &str,
    system_prompt: Option<&str>,
    think_mode: ThinkMode,
    vocab: &Vocab,
) -> (r: String)
    ensures
        r@ == parts_text(
            vocab,
            prompt_parts(
                turn_views(history@),
                current_user@,
                match system_prompt {
                    Some(s) => Some(s@),
                    None => None,
                },
                think_mode,
            ),
        ),
{
    let parts = chat_parts(history, current_user, system_prompt, think_mode);
    let ghost pv = part_views(parts@);
    let mut r = String::new();
    let mut i: usize = 0;
    assert(pv.take(0) =~= seq![]);
    assert(r@ =~= seq![]);
    while i < parts.len()
        invariant
            i <= parts@.len(),
            pv == part_views(parts@),
            r@ == parts_text(vocab, pv.take(i as int)),
        decreases parts@.len() - i,
    {
        proof {
            assert(pv.take(i + 1).drop_last() =~= pv.take(i as int));
            assert(pv.take(i + 1).last() == parts@[i as int]@);
        }
        match &parts[i] {
            PromptPart::Marker(m) => {
                let t = marker_string(vocab, *m);
                r.append(t.as_str());
            },
            PromptPart::Text(t) => r.append(t.as_str()),
        }
        i = i + 1;
    }
    assert(pv.take(pv.len() as int) =~= pv);
    r
}

/// Write the prompt of a single question as text.
pub fn apply_chat_template(
    user_prompt: &str,
    system_prompt: Option<&str>,
    think_mode: ThinkMode,
    vocab: &Vocab,
) -> (r: String)
    ensures
        r@ == parts_text(
            vocab,
            prompt_parts(
                seq![],
                user_prompt@,
                match system_prompt {
                    Some(s) => Some(s@),
                    None => None,
                },
                think_mode,
            ),
        ),
{
    let none: Vec<(String, String)> = Vec::new();
    assert(turn_views(none@) =~= seq![]);
    build_chat_prompt(&none, user_prompt, system_prompt, think_mode, vocab)
}

/// Encode a prompt: markers by their own ids, and what was said by the tokenizer.
pub fn encode_chat_prompt(
    history: &Vec<(String, String)>,
    current_user: &str,
    system_prompt: Option<&str>,
    think_mode: ThinkMode,
    vocab: &Vocab,
) -> (r: Vec<i32>)
    ensures
        r@ == parts_ids(
            vocab,
            prompt_parts(
                turn_views(history@),
                current_user@,
                match system_prompt {
                    Some(s) => Some(s@),
                    None => None,
                },
                think_mode,
            ),
        ),
{
    let parts = chat_parts(history, current_user, system_prompt, think_mode);
    let ghost pv = part_views(parts@);
    let mut r: Vec<i32> = Vec::new();
    let mut i: usize = 0;
    assert(pv.take(0) =~= seq![]);
    while i < parts.len()
        invariant
            i <= parts@.len(),
            pv == part_views(parts@),
            r@ == parts_ids(vocab, pv.take(i as int)),
        decreases parts@.len() - i,
    {
        proof {
            assert(pv.take(i + 1).drop_last() =~= pv.take(i as int));
            assert(pv.take(i + 1).last() == parts@[i as int]@);
        }
        let ghost before = r@;
        match &parts[i] {
            PromptPart::Marker(m) => {
                let mut ids = encode_marker(vocab, *m);
                r.append(&mut ids);
            },
            PromptPart::Text(t) => {
                let mut ids = vocab.encode(t.as_str());
                r.append(&mut ids);
            },
        }
        assert(r@ =~= before + part_ids(vocab, parts@[i as int]@));
        i = i + 1;
    }
    assert(pv.take(pv.len() as int) =~= pv);
    r
}

fn encode_marker(vocab: &Vocab, m: Marker) -> (r: Vec<i32>)
    ensures
        r@ == marker_ids(vocab, m),
{
    let mut r: Vec<i32> = Vec::new();
    if m == Marker::Bos {
        if vocab.bos_id >= 0 {
            r.push(vocab.bos_id);
            assert(r@ =~= seq![vocab.bos_id]);
            return r;
        }
    }
    let t = marker_string(vocab, m);
    if m != Marker::Bos {
        match vocab.token_id(t.as_str()) {
            Some(id) => {
                if id >= 0 {
                    r.push(id);
                    assert(r@ =~= seq![id]);
                    return r;
                }
            },
            None => {},
        }
    }
    vocab.encode(t.as_str())
}

/// A turn more extends the prompt: what comes before the answer to a question stays as it is when the
/// question is answered and the next one is asked. Outside the mode of maximum thinking, which closes
/// the thoughts before the answer, the whole prompt is the beginning of the next.
pub proof fn law_prompt_grows(
    history: Seq<(Seq<char>, Seq<char>)>,
    user: Seq<char>,
    answer: Seq<char>,
    next: Seq<char>,
    system: Option<Seq<char>>,
    think: ThinkMode,
)
    ensures
        ({
            let now = prompt_parts(history, user, system, think);
            let then = prompt_parts(history.push((user, answer)), next, system, think);
            let shared = now.len() - question_parts(think, user).len() + 3;
            &&& now.take(shared) == then.take(shared)
            &&& think != ThinkMode::Max ==> now.is_prefix_of(then)
        }),
{
    let longer = history.push((user, answer));
    assert(longer.drop_last() =~= history);
    assert(longer.last() == (user, answer));
    let now = prompt_parts(history, user, system, think);
    let then = prompt_parts(longer, next, system, think);
    let shared = now.len() - question_parts(think, user).len() + 3;
    assert(now.take(shared) =~= then.take(shared));
    if think != ThinkMode::Max {
        assert(then.subrange(0, now.len() as int) =~= now);
    }
}

} // verus!
