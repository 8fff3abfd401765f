//! What the prompt of a conversation promises: how a turn is framed, that everything that was said
//! is in it, in order, and which tokens its markers become.
use crate::chat::{
    history_parts, marker_ids, marker_text, part_ids, part_if, part_text, parts_ids, parts_text,
    prompt_parts, question_parts, special_token, text_ids, turn_parts, Marker, PartView, ThinkMode,
};
use crate::tokenizer::Vocab;
use vstd::prelude::*;

verus! {

/// How a turn and a question are framed: the user's text stands between the user's marker and the
/// assistant's. Thinking opens the answer's thoughts, and closes them behind the answer in a turn
/// that is over; with the most of it, empty thoughts come first, and a question closes its own.
pub proof fn law_turn_is_framed(user: Seq<char>, answer: Seq<char>)
    ensures
        turn_parts(ThinkMode::Off, user, answer) == seq![
            PartView::Marker(Marker::User),
            PartView::Text(user),
            PartView::Marker(Marker::Assistant),
            PartView::Text(answer),
        ],
        turn_parts(ThinkMode::Normal, user, answer) == seq![
            PartView::Marker(Marker::User),
            PartView::Text(user),
            PartView::Marker(Marker::Assistant),
            PartView::Marker(Marker::ThinkStart),
            PartView::Text(answer),
            PartView::Marker(Marker::ThinkEnd),
        ],
        turn_parts(ThinkMode::Auto, user, answer) == turn_parts(ThinkMode::Normal, user, answer),
        turn_parts(ThinkMode::Max, user, answer) == seq![
            PartView::Marker(Marker::User),
            PartView::Text(user),
            PartView::Marker(Marker::Assistant),
            PartView::Marker(Marker::ThinkStart),
            PartView::Marker(Marker::ThinkStart),
            PartView::Marker(Marker::ThinkEnd),
            PartView::Text(answer),
            PartView::Marker(Marker::ThinkEnd),
        ],
        question_parts(ThinkMode::Off, user) == seq![
            PartView::Marker(Marker::User),
            PartView::Text(user),
            PartView::Marker(Marker::Assistant),
        ],
        question_parts(ThinkMode::Normal, user) == seq![
            PartView::Marker(Marker::User),
            PartView::Text(user),
            PartView::Marker(Marker::Assistant),
            PartView::Marker(Marker::ThinkStart),
        ],
        question_parts(ThinkMode::Auto, user) == question_parts(ThinkMode::Normal, user),
        question_parts(ThinkMode::Max, user) == seq![
            PartView::Marker(Marker::User),
            PartView::Text(user),
            PartView::Marker(Marker::Assistant),
            PartView::Marker(Marker::ThinkStart),
            PartView::Marker(Marker::ThinkEnd),
        ],
{
    assert(turn_parts(ThinkMode::Off, user, answer) =~= seq![
        PartView::Marker(Marker::User),
        PartView::Text(user),
        PartView::Marker(Marker::Assistant),
        PartView::Text(answer),
    ]);
    assert(turn_parts(ThinkMode::Normal, user, answer) =~= seq![
        PartView::Marker(Marker::User),
        PartView::Text(user),
        PartView::Marker(Marker::Assistant),
        PartView::Marker(Marker::ThinkStart),
        PartView::Text(answer),
        PartView::Marker(Marker::ThinkEnd),
    ]);
    assert(turn_parts(ThinkMode::Max, user, answer) =~= seq![
        PartView::Marker(Marker::User),
        PartView::Text(user),
        PartView::Marker(Marker::Assistant),
        PartView::Marker(Marker::ThinkStart),
        PartView::Marker(Marker::ThinkStart),
        PartView::Marker(Marker::ThinkEnd),
        PartView::Text(answer),
        PartView::Marker(Marker::ThinkEnd),
    ]);
    assert(question_parts(ThinkMode::Off, user) =~= seq![
        PartView::Marker(Marker::User),
        PartView::Text(user),
        PartView::Marker(Marker::Assistant),
    ]);
    assert(question_parts(ThinkMode::Normal, user) =~= seq![
        PartView::Marker(Marker::User),
        PartView::Text(user),
        PartView::Marker(Marker::Assistant),
        PartView::Marker(Marker::ThinkStart),
    ]);
    assert(question_parts(ThinkMode::Max, user) =~= seq![
        PartView::Marker(Marker::User),
        PartView::Text(user),
        PartView::Marker(Marker::Assistant),
        PartView::Marker(Marker::ThinkStart),
        PartView::Marker(Marker::ThinkEnd),
    ]);
}

/// The texts among parts, in order.
pub open spec fn said(parts: Seq<PartView>) -> Seq<Seq<char>>
    decreases parts.len(),
{
    if parts.len() == 0 {
        seq![]
    } else {
        match parts.last() {
            PartView::Text(t) => said(parts.drop_last()).push(t),
            PartView::Marker(_) => said(parts.drop_last()),
        }
    }
}

/// What was said in turns: question and answer, one behind the other.
pub open spec fn exchanged(history: Seq<(Seq<char>, Seq<char>)>) -> Seq<Seq<char>> {
    Seq::new(
        2 * history.len(),
        |i: int|
            if i % 2 == 0 {
                history[i / 2].0
            } else {
                history[i / 2].1
            },
    )
}

proof fn lemma_said_concat(a: Seq<PartView>, b: Seq<PartView>)
    ensures
        said(a + b) == said(a) + said(b),
    decreases b.len(),
{
    if b.len() == 0 {
        assert(a + b =~= a);
        assert(said(a) + said(b) =~= said(a));
    } else {
        assert((a + b).drop_last() =~= a + b.drop_last());
        assert((a + b).last() == b.last());
        lemma_said_concat(a, b.drop_last());
        match b.last() {
            PartView::Text(t) => {
                assert((said(a) + said(b.drop_last())).push(t) =~= said(a) + said(
                    b.drop_last(),
                ).push(t));
            },
            PartView::Marker(_) => {},
        }
    }
}

proof fn lemma_said_one(p: PartView)
    ensures
        said(seq![p]) == match p {
            PartView::Text(t) => seq![t],
            PartView::Marker(_) => seq![],
        },
{
    assert(seq![p].drop_last() =~= seq![]);
    assert(said(Seq::<PartView>::empty()) =~= seq![]);
    match p {
        PartView::Text(t) => {
            assert(Seq::<Seq<char>>::empty().push(t) =~= seq![t]);
        },
        PartView::Marker(_) => {},
    }
}

proof fn lemma_said_if(wanted: bool, m: Marker)
    ensures
        said(part_if(wanted, m)) == Seq::<Seq<char>>::empty(),
{
    lemma_said_one(PartView::Marker(m));
    assert(said(Seq::<PartView>::empty()) =~= seq![]);
}

/// The user's part of a turn says the user's text.
proof fn lemma_said_user(user: Seq<char>)
    ensures
        said(
            seq![
                PartView::Marker(Marker::User),
                PartView::Text(user),
                PartView::Marker(Marker::Assistant),
            ],
        ) == seq![user],
{
    let p = seq![
        PartView::Marker(Marker::User),
        PartView::Text(user),
        PartView::Marker(Marker::Assistant),
    ];
    let a = seq![PartView::Marker(Marker::User)];
    let b = seq![PartView::Text(user)];
    let c = seq![PartView::Marker(Marker::Assistant)];
    assert(p =~= a + b + c);
    lemma_said_one(PartView::Marker(Marker::User));
    lemma_said_one(PartView::Text(user));
    lemma_said_one(PartView::Marker(Marker::Assistant));
    lemma_said_concat(a, b);
    lemma_said_concat(a + b, c);
    assert(said(p) =~= seq![user]);
}

proof fn lemma_said_turn(think: ThinkMode, user: Seq<char>, answer: Seq<char>)
    ensures
        said(turn_parts(think, user, answer)) == seq![user, answer],
        said(question_parts(think, user)) == seq![user],
{
    let u = seq![
        PartView::Marker(Marker::User),
        PartView::Text(user),
        PartView::Marker(Marker::Assistant),
    ];
    let a = part_if(think != ThinkMode::Off, Marker::ThinkStart);
    let b = part_if(think == ThinkMode::Max, Marker::ThinkStart);
    let c = part_if(think == ThinkMode::Max, Marker::ThinkEnd);
    let t = seq![PartView::Text(answer)];
    let e = part_if(think != ThinkMode::Off, Marker::ThinkEnd);
    lemma_said_user(user);
    lemma_said_if(think != ThinkMode::Off, Marker::ThinkStart);
    lemma_said_if(think == ThinkMode::Max, Marker::ThinkStart);
    lemma_said_if(think == ThinkMode::Max, Marker::ThinkEnd);
    lemma_said_if(think != ThinkMode::Off, Marker::ThinkEnd);
    lemma_said_one(PartView::Text(answer));
    lemma_said_concat(u, a);
    lemma_said_concat(u + a, b);
    lemma_said_concat(u + a + b, c);
    lemma_said_concat(u + a + b + c, t);
    lemma_said_concat(u + a + b + c + t, e);
    lemma_said_concat(u + a, c);
    assert(said(turn_parts(think, user, answer)) =~= seq![user, answer]);
    assert(said(question_parts(think, user)) =~= seq![user]);
}

proof fn lemma_said_history(think: ThinkMode, history: Seq<(Seq<char>, Seq<char>)>)
    ensures
        said(history_parts(think, history)) == exchanged(history),
    decreases history.len(),
{
    if history.len() == 0 {
        assert(exchanged(history) =~= seq![]);
    } else {
        let front = history.drop_last();
        let last = history.last();
        lemma_said_history(think, front);
        lemma_said_turn(think, last.0, last.1);
        lemma_said_concat(history_parts(think, front), turn_parts(think, last.0, last.1));
        assert(exchanged(history) =~= exchanged(front) + seq![last.0, last.1]);
    }
}

/// A prompt begins with the marker of the beginning and says the system prompt, every question and
/// answer in order, and the question that is asked: nothing is left out, added or said twice.
pub proof fn law_prompt_says_all(
    history: Seq<(Seq<char>, Seq<char>)>,
    user: Seq<char>,
    system: Option<Seq<char>>,
    think: ThinkMode,
)
    ensures
        prompt_parts(history, user, system, think)[0] == PartView::Marker(Marker::Bos),
        system matches Some(s) ==> said(prompt_parts(history, user, system, think)) == seq![s]
            + exchanged(history) + seq![user],
        system is None ==> said(prompt_parts(history, user, system, think)) == seq![
            "You are a helpful assistant"@,
        ] + exchanged(history) + seq![user],
{
    let s = match system {
        Some(s) => s,
        None => "You are a helpful assistant"@,
    };
    let head = seq![PartView::Marker(Marker::Bos), PartView::Text(s)];
    let bos = seq![PartView::Marker(Marker::Bos)];
    let text = seq![PartView::Text(s)];
    assert(head =~= bos + text);
    lemma_said_one(PartView::Marker(Marker::Bos));
    lemma_said_one(PartView::Text(s));
    lemma_said_concat(bos, text);
    assert(said(head) =~= seq![s]);
    lemma_said_history(think, history);
    lemma_said_turn(think, user, user);
    lemma_said_concat(head, history_parts(think, history));
    lemma_said_concat(head + history_parts(think, history), question_parts(think, user));
    let whole = prompt_parts(history, user, system, think);
    assert(whole =~= head + history_parts(think, history) + question_parts(think, user));
    assert(said(whole) =~= seq![s] + exchanged(history) + seq![user]);
}

// Markers

/// A special token is the first of the names that the vocabulary has, and the fallback only where it
/// has none of them.
pub proof fn law_special_token(
    ids: Map<Seq<char>, i32>,
    names: Seq<Seq<char>>,
    fallback: Seq<char>,
    i: nat,
)
    ensures
        forall|k: int|
            i <= k < names.len() && ids.contains_key(#[trigger] names[k]) && ids[names[k]] >= 0 && (
            forall|j: int|
                i <= j < k ==> !(ids.contains_key(#[trigger] names[j]) && ids[names[j]] >= 0))
                ==> special_token(ids, names, i, fallback) == names[k],
        (forall|k: int|
            i <= k < names.len() ==> !(ids.contains_key(#[trigger] names[k]) && ids[names[k]] >= 0))
            ==> special_token(ids, names, i, fallback) == fallback,
    decreases names.len() - i,
{
    if i < names.len() {
        law_special_token(ids, names, fallback, i + 1);
        if ids.contains_key(names[i as int]) && ids[names[i as int]] >= 0 {
            assert forall|k: int|
                i <= k < names.len() && ids.contains_key(#[trigger] names[k]) && ids[names[k]] >= 0
                    && (forall|j: int|
                    i <= j < k ==> !(ids.contains_key(#[trigger] names[j]) && ids[names[j]] >= 0))
                implies special_token(ids, names, i, fallback) == names[k] by {
                if k > i {
                    assert(ids.contains_key(names[i as int]));
                }
            }
        }
    }
}

/// A vocabulary knows a token.
pub open spec fn knows(vocab: &Vocab, t: Seq<char>) -> bool {
    vocab.ids().contains_key(t) && vocab.ids()[t] >= 0
}

/// Each marker becomes the one token of its name, where the vocabulary knows it: the full-width
/// spelling before the plain one. The user and the assistant are spelt out otherwise. The beginning
/// has the token that the vocabulary names for it.
pub proof fn law_markers(vocab: &Vocab)
    ensures
        vocab.bos_id >= 0 ==> marker_ids(vocab, Marker::Bos) == seq![vocab.bos_id],
        knows(vocab, "<｜User｜>"@) ==> marker_ids(vocab, Marker::User) == seq![
            vocab.ids()["<｜User｜>"@],
        ],
        !knows(vocab, "<｜User｜>"@) && knows(vocab, "<|User|>"@) ==> marker_ids(
            vocab,
            Marker::User,
        ) == seq![vocab.ids()["<|User|>"@]],
        !knows(vocab, "<｜User｜>"@) && !knows(vocab, "<|User|>"@) && !knows(vocab, "User"@)
            ==> marker_ids(vocab, Marker::User) == text_ids(vocab, "User"@),
        knows(vocab, "<｜Assistant｜>"@) ==> marker_ids(vocab, Marker::Assistant) == seq![
            vocab.ids()["<｜Assistant｜>"@],
        ],
        !knows(vocab, "<｜Assistant｜>"@) && knows(vocab, "<|Assistant|>"@) ==> marker_ids(
            vocab,
            Marker::Assistant,
        ) == seq![vocab.ids()["<|Assistant|>"@]],
        !knows(vocab, "<｜Assistant｜>"@) && !knows(vocab, "<|Assistant|>"@) && !knows(
            vocab,
            "Assistant"@,
        ) ==> marker_ids(vocab, Marker::Assistant) == text_ids(vocab, "Assistant"@),
        marker_text(vocab, Marker::ThinkStart) == "<think>"@,
        marker_text(vocab, Marker::ThinkEnd) == "</think>"@,
        knows(vocab, "<think>"@) ==> marker_ids(vocab, Marker::ThinkStart) == seq![
            vocab.ids()["<think>"@],
        ],
        knows(vocab, "</think>"@) ==> marker_ids(vocab, Marker::ThinkEnd) == seq![
            vocab.ids()["</think>"@],
        ],
        vocab.bos_id < 0 ==> marker_text(vocab, Marker::Bos) == "<s>"@ && marker_ids(
            vocab,
            Marker::Bos,
        ) == text_ids(vocab, "<s>"@),
{
    reveal_with_fuel(special_token, 4);
}

/// Parts are put into text and into tokens one behind the other.
pub proof fn law_parts_concat(vocab: &Vocab, a: Seq<PartView>, b: Seq<PartView>)
    ensures
        parts_text(vocab, a + b) == parts_text(vocab, a) + parts_text(vocab, b),
        parts_ids(vocab, a + b) == parts_ids(vocab, a) + parts_ids(vocab, b),
    decreases b.len(),
{
    if b.len() == 0 {
        assert(a + b =~= a);
        assert(parts_text(vocab, a) + parts_text(vocab, b) =~= parts_text(vocab, a));
        assert(parts_ids(vocab, a) + parts_ids(vocab, b) =~= parts_ids(vocab, a));
    } else {
        assert((a + b).drop_last() =~= a + b.drop_last());
        assert((a + b).last() == b.last());
        law_parts_concat(vocab, a, b.drop_last());
        assert(parts_text(vocab, a + b) =~= parts_text(vocab, a) + parts_text(vocab, b));
        assert(parts_ids(vocab, a + b) =~= parts_ids(vocab, a) + parts_ids(vocab, b));
    }
}

/// A text among parts becomes itself, and its tokens are those of the text.
pub proof fn law_text_part(vocab: &Vocab, t: Seq<char>)
    ensures
        parts_text(vocab, seq![PartView::Text(t)]) == t,
        parts_ids(vocab, seq![PartView::Text(t)]) == text_ids(vocab, t),
{
    let p = seq![PartView::Text(t)];
    assert(p.drop_last() =~= seq![]);
    assert(p.last() == PartView::Text(t));
    assert(parts_text(vocab, Seq::<PartView>::empty()) =~= seq![]);
    assert(parts_ids(vocab, Seq::<PartView>::empty()) =~= seq![]);
    assert(part_text(vocab, p.last()) == t && part_ids(vocab, p.last()) == text_ids(vocab, t));
    assert(parts_text(vocab, p) =~= t);
    assert(parts_ids(vocab, p) =~= text_ids(vocab, t));
}

} // verus!
