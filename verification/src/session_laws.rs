//! What sessions come to, for any forward pass: the pass is a function of the caches, the state that
//! the token before left, and the step.
use crate::forward::{first_layers, fresh_layers, law_restore_undoes, put_back, LayerView};
use crate::rank::leader;
use crate::session::{
    common_prefix, fed, kept, law_common_prefix_is_longest, law_sync_reaches_prompt, step_at,
    steps_from, sync_steps, SessionView, SpeculationView, Step,
};
use vstd::prelude::*;

verus! {

/// What feeding a token gives.
pub ghost struct Outcome {
    /// The caches.
    pub layers: Seq<LayerView>,
    /// The scores of the next token.
    pub logits: Seq<u32>,
    /// The state for the next token.
    pub hc: Seq<u32>,
}

/// A forward pass.
pub type Forward = spec_fn(Seq<LayerView>, Seq<u32>, Step) -> Outcome;

/// The session after a token was fed: the step of the token goes through the pass, and what comes
/// out is recorded.
pub open spec fn evaled(f: Forward, s: SessionView, token: i32) -> SessionView {
    let o = f(s.layers, s.hc, step_at(token, s.tokens.len()));
    SessionView {
        layers: o.layers,
        logits: o.logits,
        hc: o.hc,
        tokens: s.tokens.push(token),
        ..s
    }
}

/// The session after tokens were fed one after the other.
pub open spec fn evaled_all(f: Forward, s: SessionView, tokens: Seq<i32>) -> SessionView
    decreases tokens.len(),
{
    if tokens.len() == 0 {
        s
    } else {
        evaled(f, evaled_all(f, s, tokens.drop_last()), tokens.last())
    }
}

/// Feeding tokens appends them.
proof fn lemma_evaled_tokens(f: Forward, s: SessionView, tokens: Seq<i32>)
    ensures
        evaled_all(f, s, tokens).tokens == s.tokens + tokens,
    decreases tokens.len(),
{
    if tokens.len() > 0 {
        lemma_evaled_tokens(f, s, tokens.drop_last());
        assert(s.tokens + tokens =~= (s.tokens + tokens.drop_last()).push(tokens.last()));
    } else {
        assert(s.tokens + tokens =~= s.tokens);
    }
}

// Speculation

/// The session and the speculation after the drafts were held against the choices of the model: as
/// long as a choice is wanted, the token with the greatest score is held against the next draft, and
/// fed where it is confirmed.
pub open spec fn verified(f: Forward, s: SessionView, sp: SpeculationView) -> (
    SessionView,
    SpeculationView,
)
    decreases sp.drafts.len() - sp.n_accepted,
{
    let best = leader(s.logits) as i32;
    if sp.confirms(best) {
        verified(f, evaled(f, s, best), sp.after(best))
    } else {
        (s, sp.after(best))
    }
}

/// A speculation with no choice known.
pub open spec fn unchecked(drafts: Seq<i32>) -> SpeculationView {
    SpeculationView { drafts, n_accepted: 0, refused: false }
}

proof fn lemma_verified(f: Forward, base: SessionView, s: SessionView, sp: SpeculationView)
    requires
        sp.n_accepted <= sp.drafts.len(),
        !sp.refused,
        s == evaled_all(f, base, sp.drafts.take(sp.n_accepted as int)),
    ensures
        ({
            let (t, end) = verified(f, s, sp);
            let n = end.n_accepted as int;
            &&& end.drafts == sp.drafts
            &&& sp.n_accepted <= n <= sp.drafts.len()
            &&& t == evaled_all(f, base, sp.drafts.take(n))
            &&& !end.unfinished()
            &&& forall|i: int|
                sp.n_accepted <= i < n ==> leader(
                    evaled_all(f, base, #[trigger] sp.drafts.take(i)).logits,
                ) as i32 == sp.drafts[i]
            &&& n < sp.drafts.len() ==> leader(t.logits) as i32 != sp.drafts[n]
        }),
    decreases sp.drafts.len() - sp.n_accepted,
{
    let best = leader(s.logits) as i32;
    if sp.confirms(best) {
        let next = sp.after(best);
        let k = sp.n_accepted as int;
        let longer = sp.drafts.take(k + 1);
        assert(longer.drop_last() =~= sp.drafts.take(k));
        assert(longer.last() == best);
        lemma_verified(f, base, evaled(f, s, best), next);
    }
}

/// Speculation leaves no trace but the drafts that it accepts: whatever drafting did to the caches of
/// the first `n` layers, the session ends as if the token and then each accepted draft had been fed.
/// Each accepted draft is the token that had the greatest score at its place, and the first draft
/// that is not accepted is not.
pub proof fn law_speculation_leaves_no_trace(
    f: Forward,
    s: SessionView,
    drafted: Seq<LayerView>,
    n: usize,
    token: i32,
    drafts: Seq<i32>,
)
    requires
        drafted.len() == s.layers.len(),
        forall|i: int| n <= i < s.layers.len() ==> drafted[i] == s.layers[i],
    ensures
        ({
            let restored = SessionView {
                layers: put_back(drafted, first_layers(s.layers, n)),
                ..s
            };
            let (t, sp) = verified(f, evaled(f, restored, token), unchecked(drafts));
            let plain = evaled(f, s, token);
            let accepted = drafts.take(sp.n_accepted as int);
            &&& sp.drafts == drafts
            &&& sp.n_accepted <= drafts.len()
            &&& t == evaled_all(f, plain, accepted)
            &&& t.tokens == s.tokens.push(token) + accepted
            &&& !sp.unfinished()
            &&& forall|i: int|
                0 <= i < accepted.len() ==> leader(
                    evaled_all(f, plain, #[trigger] accepted.take(i)).logits,
                ) as i32 == accepted[i]
            &&& sp.n_accepted < drafts.len() ==> leader(t.logits) as i32
                != drafts[sp.n_accepted as int]
        }),
{
    law_restore_undoes(s.layers, drafted, n);
    let restored = SessionView { layers: put_back(drafted, first_layers(s.layers, n)), ..s };
    assert(restored =~= s);
    let plain = evaled(f, s, token);
    let start = unchecked(drafts);
    assert(drafts.take(0).len() == 0);
    assert(evaled_all(f, plain, drafts.take(0)) == plain);
    lemma_verified(f, plain, plain, start);
    let (t, sp) = verified(f, plain, start);
    let accepted = drafts.take(sp.n_accepted as int);
    lemma_evaled_tokens(f, plain, accepted);
    assert forall|i: int| 0 <= i < accepted.len() implies leader(
        evaled_all(f, plain, #[trigger] accepted.take(i)).logits,
    ) as i32 == accepted[i] by {
        assert(accepted.take(i) =~= drafts.take(i));
    }
}

// Prompts

/// The session after the steps of a prompt were fed in order.
pub open spec fn after_steps(f: Forward, s: SessionView, steps: Seq<Step>) -> SessionView
    decreases steps.len(),
{
    if steps.len() == 0 {
        s
    } else {
        let before = after_steps(f, s, steps.drop_last());
        let o = f(before.layers, before.hc, steps.last());
        SessionView {
            layers: o.layers,
            logits: o.logits,
            hc: o.hc,
            tokens: before.tokens.push(steps.last().token),
            ..before
        }
    }
}

proof fn lemma_steps_are_evals(f: Forward, s: SessionView, prompt: Seq<i32>, from: nat, n: nat)
    requires
        from == s.tokens.len(),
        from + n <= prompt.len(),
    ensures
        after_steps(f, s, steps_from(prompt, from).take(n as int)) == evaled_all(
            f,
            s,
            prompt.subrange(from as int, (from + n) as int),
        ),
    decreases n,
{
    let steps = steps_from(prompt, from).take(n as int);
    let part = prompt.subrange(from as int, (from + n) as int);
    if n > 0 {
        let m = (n - 1) as nat;
        lemma_steps_are_evals(f, s, prompt, from, m);
        assert(steps.drop_last() =~= steps_from(prompt, from).take(m as int));
        assert(part.drop_last() =~= prompt.subrange(from as int, (from + m) as int));
        lemma_evaled_tokens(f, s, part.drop_last());
        assert(steps.last() == step_at(part.last(), (from + m) as nat));
    }
}

/// Syncing to a prompt feeds the tokens that do not stay, each as if it were fed alone, and ends with
/// the tokens of the prompt.
pub proof fn law_sync_feeds_the_rest(f: Forward, s: SessionView, prompt: Seq<i32>)
    requires
        prompt.len() > 0,
    ensures
        ({
            let t = after_steps(f, s.aimed_at(prompt), sync_steps(s.tokens, prompt));
            &&& t == evaled_all(
                f,
                s.aimed_at(prompt),
                prompt.skip(kept(s.tokens, prompt) as int),
            )
            &&& t.tokens == prompt
        }),
{
    law_sync_reaches_prompt(s, prompt);
    let start = s.aimed_at(prompt);
    let k = kept(s.tokens, prompt);
    let rest = prompt.skip(k as int);
    assert(k <= prompt.len());
    lemma_steps_are_evals(f, start, prompt, k, (prompt.len() - k) as nat);
    assert(steps_from(prompt, k).take(prompt.len() - k) =~= sync_steps(s.tokens, prompt));
    assert(prompt.subrange(k as int, prompt.len() as int) =~= rest);
    lemma_evaled_tokens(f, start, rest);
    assert(fed(sync_steps(s.tokens, prompt)) =~= rest);
}

/// Aiming at a prompt keeps as much as it can: unless the session runs past the whole prompt, it
/// keeps every token that the two begin with, and what the layers hold where there is such a token.
/// Otherwise it starts over.
pub proof fn law_sync_keeps_what_is_shared(s: SessionView, prompt: Seq<i32>, m: nat)
    requires
        prompt.len() > 0,
        m <= prompt.len(),
        m <= s.tokens.len(),
        s.tokens.take(m as int) == prompt.take(m as int),
    ensures
        ({
            let a = s.aimed_at(prompt);
            let past = s.tokens.len() > prompt.len() && s.tokens.take(prompt.len() as int) == prompt;
            &&& !past ==> m <= a.tokens.len() && a.tokens == prompt.take(a.tokens.len() as int)
            &&& past ==> a.tokens.len() == 0
            &&& a.tokens.len() > 0 ==> a.layers == s.layers
            &&& a.tokens.len() == 0 ==> a.layers == fresh_layers(s.dims, s.ctx_size)
            &&& a.logits == s.logits && a.hc == s.hc && a.dims == s.dims && a.ctx_size == s.ctx_size
        }),
{
    let n = common_prefix(s.tokens, prompt);
    law_common_prefix_is_longest(s.tokens, prompt, m);
    law_common_prefix_is_longest(s.tokens, prompt, n);
    assert(prompt.take(prompt.len() as int) =~= prompt);
    if s.tokens.len() > prompt.len() && s.tokens.take(prompt.len() as int) == prompt {
        law_common_prefix_is_longest(s.tokens, prompt, prompt.len());
    }
    let a = s.aimed_at(prompt);
    if s.tokens == prompt {
        assert(prompt.take(prompt.len() as int) =~= prompt);
    } else {
        assert(kept(s.tokens, prompt) == 0 || a.tokens =~= prompt.take(n as int));
        assert(kept(s.tokens, prompt) == 0 ==> a.tokens =~= prompt.take(0));
        if n == prompt.len() && n < s.tokens.len() {
            assert(s.tokens.take(n as int) == prompt);
        }
    }
}

/// The steps of a plan feed the rest of the prompt in order, each token at its own position, and only
/// the very first position starts afresh.
pub proof fn law_steps_in_order(tokens: Seq<i32>, prompt: Seq<i32>, k: int)
    requires
        prompt.len() <= usize::MAX,
        0 <= k < sync_steps(tokens, prompt).len(),
    ensures
        ({
            let step = sync_steps(tokens, prompt)[k];
            let p = prompt.len() - sync_steps(tokens, prompt).len() + k;
            &&& 0 <= p < prompt.len()
            &&& step.pos == p
            &&& step.token == prompt[p]
            &&& step.fresh <==> p == 0
        }),
{
    law_common_prefix_is_longest(tokens, prompt, 0);
}

} // verus!
