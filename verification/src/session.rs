//! Sessions: the tokens that were fed, the caches that they left, and what is to be fed next.
//!
//! Feeding a token is arithmetic on floats and happens outside: a session says which token goes in
//! at which position, and records what came out.
use crate::constants::Dims;
use crate::compressor::{fill, filled};
use crate::forward::{cacheable, fresh_layers, KvCache, LayerView};
use crate::rank::{find_leader, leader, lemma_picks_len, pick_many, picks};
use vstd::prelude::*;

verus! {

/// What a session holds.
#[verifier::ext_equal]
pub ghost struct SessionView {
    /// The sizes of the model.
    pub dims: Dims,
    /// The caches.
    pub layers: Seq<LayerView>,
    /// The scores of the next token.
    pub logits: Seq<u32>,
    /// The tokens that were fed.
    pub tokens: Seq<i32>,
    /// The context size.
    pub ctx_size: usize,
    /// The state that one token hands to the next.
    pub hc: Seq<u32>,
}

/// A session.
#[derive(Debug)]
pub struct Session {
    /// The caches.
    pub kv_cache: KvCache,
    /// The scores of the next token.
    pub logits: Vec<u32>,
    /// The tokens that were fed.
    pub tokens: Vec<i32>,
    /// The context size.
    pub ctx_size: usize,
    /// The state that one token hands to the next.
    pub hc: Vec<u32>,
}

/// One token to feed.
#[derive(Debug, Clone, Copy, PartialEq, Eq, Structural)]
pub struct Step {
    /// The token.
    pub token: i32,
    /// Its position.
    pub pos: usize,
    /// Whether it starts from its embedding alone, with no state from a token before.
    pub fresh: bool,
}

/// The tokens to feed for a prompt.
#[derive(Debug)]
pub struct SyncPlan {
    /// The tokens to feed, in order.
    pub steps: Vec<Step>,
    /// Whether the session starts over.
    pub rebuilt: bool,
}

impl View for Session {
    type V = SessionView;

    open spec fn view(&self) -> SessionView {
        SessionView {
            dims: self.kv_cache.dims,
            layers: self.kv_cache.views(),
            logits: self.logits@,
            tokens: self.tokens@,
            ctx_size: self.ctx_size,
            hc: self.hc@,
        }
    }
}

/// How far two lists agree from index `i` on.
pub open spec fn agree_until(a: Seq<i32>, b: Seq<i32>, i: nat) -> nat
    decreases a.len() - i,
{
    if i < a.len() && i < b.len() && a[i as int] == b[i as int] {
        agree_until(a, b, i + 1)
    } else {
        i
    }
}

/// The length of the common prefix of two lists.
pub open spec fn common_prefix(a: Seq<i32>, b: Seq<i32>) -> nat {
    agree_until(a, b, 0)
}

proof fn lemma_agree_until(a: Seq<i32>, b: Seq<i32>, i: nat)
    requires
        i <= a.len(),
        i <= b.len(),
        forall|k: int| 0 <= k < i ==> a[k] == b[k],
    ensures
        ({
            let n = agree_until(a, b, i);
            &&& i <= n <= a.len()
            &&& n <= b.len()
            &&& forall|k: int| 0 <= k < n ==> a[k] == b[k]
            &&& n < a.len() && n < b.len() ==> a[n as int] != b[n as int]
        }),
    decreases a.len() - i,
{
    if i < a.len() && i < b.len() && a[i as int] == b[i as int] {
        lemma_agree_until(a, b, i + 1);
    }
}

/// The common prefix is common, and no longer prefix is.
pub proof fn law_common_prefix_is_longest(a: Seq<i32>, b: Seq<i32>, m: nat)
    ensures
        common_prefix(a, b) <= a.len(),
        common_prefix(a, b) <= b.len(),
        a.take(common_prefix(a, b) as int) == b.take(common_prefix(a, b) as int),
        m <= a.len() && m <= b.len() && a.take(m as int) == b.take(m as int) ==> m
            <= common_prefix(a, b),
{
    lemma_agree_until(a, b, 0);
    let n = common_prefix(a, b);
    assert(a.take(n as int) =~= b.take(n as int));
    if n < m && m <= a.len() && m <= b.len() && a.take(m as int) == b.take(m as int) {
        assert(a.take(m as int)[n as int] == b.take(m as int)[n as int]);
    }
}

/// The step that feeds a token at a position.
pub open spec fn step_at(token: i32, pos: nat) -> Step {
    Step { token, pos: pos as usize, fresh: pos == 0 }
}

/// The steps that feed a prompt from a position on.
pub open spec fn steps_from(prompt: Seq<i32>, from: nat) -> Seq<Step> {
    Seq::new(
        (prompt.len() - from) as nat,
        |k: int| step_at(prompt[from + k], (from + k) as nat),
    )
}

/// How many tokens of a session stay for a prompt: those that it shares with the prompt. A session
/// that goes on behind the end of the prompt keeps none: its state is that of another text.
pub open spec fn kept(tokens: Seq<i32>, prompt: Seq<i32>) -> nat {
    let c = common_prefix(tokens, prompt);
    if c == prompt.len() && c < tokens.len() {
        0
    } else {
        c
    }
}

/// The steps that bring a session with some tokens to a prompt.
pub open spec fn sync_steps(tokens: Seq<i32>, prompt: Seq<i32>) -> Seq<Step> {
    steps_from(prompt, kept(tokens, prompt))
}

/// The tokens that a list of steps feeds.
pub open spec fn fed(steps: Seq<Step>) -> Seq<i32> {
    Seq::new(steps.len(), |k: int| steps[k].token)
}

impl SessionView {
    /// The session before the steps of a prompt: it starts over where no token stays, and otherwise
    /// forgets the tokens that do not. An empty prompt, and one that the session is at already,
    /// leave it alone.
    pub open spec fn aimed_at(self, prompt: Seq<i32>) -> SessionView {
        let n = kept(self.tokens, prompt);
        if prompt.len() == 0 || self.tokens == prompt {
            self
        } else if n == 0 {
            SessionView {
                layers: fresh_layers(self.dims, self.ctx_size),
                tokens: Seq::empty(),
                ..self
            }
        } else {
            SessionView { tokens: self.tokens.take(n as int), ..self }
        }
    }
}

/// Feeding the steps of a prompt in order leaves the session with the prompt's tokens, whatever it
/// held before, each step at the position of its token and only the first one of all without a state
/// from before. The last step feeds the last token of the prompt, so that the scores are those
/// behind it; only where the session is at the prompt already there is nothing to feed.
pub proof fn law_sync_reaches_prompt(s: SessionView, prompt: Seq<i32>)
    requires
        prompt.len() > 0,
    ensures
        s.aimed_at(prompt).tokens + fed(sync_steps(s.tokens, prompt)) == prompt,
        sync_steps(s.tokens, prompt).len() == 0 <==> s.tokens == prompt,
        s.tokens == prompt ==> s.aimed_at(prompt) == s,
        s.aimed_at(prompt).tokens.len() == kept(s.tokens, prompt),
        forall|k: int|
            0 <= k < sync_steps(s.tokens, prompt).len() ==> (#[trigger] sync_steps(
                s.tokens,
                prompt,
            )[k]) == step_at(
                prompt[kept(s.tokens, prompt) + k],
                (kept(s.tokens, prompt) + k) as nat,
            ),
{
    lemma_agree_until(s.tokens, prompt, 0);
    let n = kept(s.tokens, prompt);
    if s.tokens == prompt {
        assert(n == prompt.len());
    } else if n == prompt.len() {
        assert(s.tokens =~= prompt);
    }
    assert(s.aimed_at(prompt).tokens =~= prompt.take(n as int));
    assert(s.aimed_at(prompt).tokens + fed(sync_steps(s.tokens, prompt)) =~= prompt);
}

/// Feeding a prompt at once and feeding a part of it first take the same steps.
pub proof fn law_sync_in_parts(prompt: Seq<i32>, n: nat)
    requires
        n <= prompt.len(),
    ensures
        sync_steps(Seq::empty(), prompt.take(n as int)) + sync_steps(prompt.take(n as int), prompt)
            == sync_steps(Seq::empty(), prompt),
{
    let part = prompt.take(n as int);
    lemma_agree_until(part, prompt, 0);
    assert(common_prefix(part, prompt) == n);
    assert(common_prefix(Seq::empty(), prompt) == 0);
    assert(common_prefix(Seq::empty(), part) == 0);
    assert(sync_steps(Seq::empty(), part) + sync_steps(part, prompt) =~= sync_steps(
        Seq::empty(),
        prompt,
    ));
}

impl Session {
    /// The session fits its model.
    pub open spec fn wf(&self) -> bool {
        &&& self.kv_cache.wf()
        &&& self.kv_cache.ctx_size == self.ctx_size
        &&& self.logits@.len() == self.kv_cache.dims.n_vocab
        &&& self.hc@.len() == self.kv_cache.dims.n_hc * self.kv_cache.dims.n_embd
    }

    /// Make a session.
    pub fn new(d: &Dims, ctx_size: usize) -> (r: Session)
        requires
            cacheable(*d, ctx_size),
            d.n_hc * d.n_embd <= usize::MAX,
        ensures
            r.wf(),
            r@ == (SessionView {
                dims: *d,
                layers: fresh_layers(*d, ctx_size),
                logits: filled(d.n_vocab as nat, 0),
                tokens: Seq::empty(),
                ctx_size,
                hc: filled((d.n_hc * d.n_embd) as nat, 0),
            }),
    {
        Session {
            kv_cache: KvCache::new(d, ctx_size),
            logits: fill(d.n_vocab as usize, 0),
            tokens: Vec::new(),
            ctx_size,
            hc: fill(d.n_hc as usize * d.n_embd as usize, 0),
        }
    }

    /// Count the tokens that were fed.
    pub fn n_tokens(&self) -> (r: usize)
        ensures
            r == self.tokens@.len(),
    {
        self.tokens.len()
    }

    /// Measure how many tokens of a prompt the session already begins with.
    pub fn common_prefix_len(&self, prompt: &[i32]) -> (r: usize)
        ensures
            r == common_prefix(self.tokens@, prompt@),
    {
        let mut i: usize = 0;
        while i < self.tokens.len() && i < prompt.len() && self.tokens[i] == prompt[i]
            invariant
                i <= self.tokens@.len(),
                i <= prompt@.len(),
                common_prefix(self.tokens@, prompt@) == agree_until(
                    self.tokens@,
                    prompt@,
                    i as nat,
                ),
            decreases prompt@.len() - i,
        {
            i = i + 1;
        }
        i
    }

    /// Prepare the session for a prompt, and list the tokens to feed.
    pub fn begin_sync(&mut self, prompt: &[i32]) -> (r: SyncPlan)
        requires
            old(self).wf(),
        ensures
            final(self).wf(),
            final(self)@ == old(self)@.aimed_at(prompt@),
            r.steps@ == sync_steps(old(self).tokens@, prompt@),
            r.rebuilt == (prompt@.len() > 0 && kept(old(self).tokens@, prompt@) == 0),
    {
        let common: usize = self.common_prefix_len(prompt);
        proof {
            lemma_agree_until(self.tokens@, prompt@, 0);
        }
        let keep: usize = if common == prompt.len() && common < self.tokens.len() {
            0
        } else {
            common
        };
        let rebuilt: bool = prompt.len() > 0 && keep == 0;
        if rebuilt {
            let d: Dims = self.kv_cache.dims;
            self.kv_cache = KvCache::new(&d, self.ctx_size);
            self.tokens.clear();
        } else if keep < prompt.len() {
            self.tokens.truncate(keep);
        } else {
            assert(prompt@.len() > 0 ==> self.tokens@ =~= prompt@);
        }
        assert(self@ =~= old(self)@.aimed_at(prompt@));
        let mut steps: Vec<Step> = Vec::new();
        let mut i: usize = keep;
        while i < prompt.len()
            invariant
                keep <= i <= prompt@.len(),
                keep == kept(old(self).tokens@, prompt@),
                steps@ =~= sync_steps(old(self).tokens@, prompt@).take(i - keep),
            decreases prompt@.len() - i,
        {
            steps.push(Step { token: prompt[i], pos: i, fresh: i == 0 });
            i = i + 1;
        }
        assert(steps@ =~= sync_steps(old(self).tokens@, prompt@));
        SyncPlan { steps, rebuilt }
    }

    /// Record what feeding a token gave.
    pub fn record(&mut self, token: i32, logits: Vec<u32>, hc: Vec<u32>)
        requires
            old(self).wf(),
            logits@.len() == old(self).logits@.len(),
            hc@.len() == old(self).hc@.len(),
        ensures
            final(self).wf(),
            final(self)@ == (SessionView {
                logits: logits@,
                hc: hc@,
                tokens: old(self).tokens@.push(token),
                ..old(self)@
            }),
    {
        self.logits = logits;
        self.hc = hc;
        self.tokens.push(token);
    }

    /// Finish the prompt of a plan: where the session started over, the windows that the prompt left
    /// partly filled are cleared.
    pub fn end_sync(&mut self, plan: &SyncPlan)
        requires
            old(self).wf(),
        ensures
            final(self).wf(),
            final(self)@ == if plan.rebuilt {
                SessionView {
                    layers: Seq::new(
                        old(self)@.layers.len(),
                        |i: int|
                            old(self)@.layers[i].finished(
                                old(self)@.dims,
                                plan.steps@.len() as usize,
                            ),
                    ),
                    ..old(self)@
                }
            } else {
                old(self)@
            },
    {
        if plan.rebuilt {
            self.kv_cache.finish_prefill_states(plan.steps.len());
        }
    }

    /// The step that feeds one more token.
    pub fn next_step(&self, token: i32) -> (r: Step)
        ensures
            r == step_at(token, self.tokens@.len()),
    {
        Step { token, pos: self.tokens.len(), fresh: self.tokens.len() == 0 }
    }

    /// Find the token with the greatest score.
    pub fn argmax(&self) -> (r: i32)
        ensures
            r == leader(self.logits@) as i32,
    {
        find_leader(self.logits.as_slice()) as i32
    }

    /// Start over.
    pub fn invalidate(&mut self)
        requires
            old(self).wf(),
        ensures
            final(self).wf(),
            final(self)@ == (SessionView {
                layers: fresh_layers(old(self)@.dims, old(self)@.ctx_size),
                tokens: Seq::empty(),
                logits: filled(old(self)@.logits.len(), 0),
                ..old(self)@
            }),
    {
        let d: Dims = self.kv_cache.dims;
        self.tokens.clear();
        self.kv_cache = KvCache::new(&d, self.ctx_size);
        self.logits = fill(self.logits.len(), 0);
    }

    /// Forget the tokens from a position on.
    pub fn rewind(&mut self, pos: usize)
        requires
            old(self).wf(),
        ensures
            final(self).wf(),
            final(self)@ == (SessionView {
                tokens: if pos < old(self).tokens@.len() {
                    old(self).tokens@.take(pos as int)
                } else {
                    old(self).tokens@
                },
                ..old(self)@
            }),
    {
        if pos < self.tokens.len() {
            self.tokens.truncate(pos);
        }
    }
}

// Generation

/// What a generation has come to.
#[verifier::ext_equal]
pub ghost struct GenerationView {
    /// The tokens so far.
    pub tokens: Seq<i32>,
    /// Whether the end token was chosen.
    pub stopped: bool,
}

/// A generation of tokens, one choice after the other.
#[derive(Debug)]
pub struct Generation {
    /// The tokens so far.
    pub tokens: Vec<i32>,
    /// Whether the end token was chosen.
    pub stopped: bool,
    /// The token that ends the generation.
    pub eos: i32,
    /// How many tokens are generated at most.
    pub max_tokens: usize,
}

impl View for Generation {
    type V = GenerationView;

    open spec fn view(&self) -> GenerationView {
        GenerationView { tokens: self.tokens@, stopped: self.stopped }
    }
}

impl GenerationView {
    /// Another choice is wanted.
    pub open spec fn unfinished(self, max_tokens: nat) -> bool {
        !self.stopped && self.tokens.len() < max_tokens
    }

    /// The generation after a choice.
    pub open spec fn after(self, eos: i32, max_tokens: nat, token: i32) -> GenerationView {
        if !self.unfinished(max_tokens) {
            self
        } else if token == eos {
            GenerationView { stopped: true, ..self }
        } else {
            GenerationView { tokens: self.tokens.push(token), ..self }
        }
    }
}

/// The generation after some choices.
pub open spec fn after_choices(eos: i32, max_tokens: nat, choices: Seq<i32>) -> GenerationView
    decreases choices.len(),
{
    if choices.len() == 0 {
        GenerationView { tokens: Seq::empty(), stopped: false }
    } else {
        after_choices(eos, max_tokens, choices.drop_last()).after(eos, max_tokens, choices.last())
    }
}

impl Generation {
    /// Start a generation.
    pub fn new(eos: i32, max_tokens: usize) -> (r: Generation)
        ensures
            r@ == (GenerationView { tokens: Seq::empty(), stopped: false }),
            r.eos == eos,
            r.max_tokens == max_tokens,
    {
        Generation { tokens: Vec::new(), stopped: false, eos, max_tokens }
    }

    /// Check if another choice is wanted.
    pub fn wants_more(&self) -> (r: bool)
        ensures
            r == self@.unfinished(self.max_tokens as nat),
    {
        !self.stopped && self.tokens.len() < self.max_tokens
    }

    /// Offer the next choice. A token that was taken is to be fed.
    pub fn offer(&mut self, token: i32) -> (taken: bool)
        ensures
            final(self)@ == old(self)@.after(old(self).eos, old(self).max_tokens as nat, token),
            final(self).eos == old(self).eos,
            final(self).max_tokens == old(self).max_tokens,
            taken == (old(self)@.unfinished(old(self).max_tokens as nat) && token != old(self).eos),
    {
        if !self.wants_more() {
            return false;
        }
        if token == self.eos {
            self.stopped = true;
            return false;
        }
        self.tokens.push(token);
        true
    }
}

/// A generation holds the choices before the first end token, as many as are wanted: never the end
/// token, never too many, and all of them where neither limit was met.
pub proof fn law_generation_is_prefix(eos: i32, max_tokens: nat, choices: Seq<i32>)
    ensures
        ({
            let g = after_choices(eos, max_tokens, choices);
            let n = g.tokens.len() as int;
            &&& n <= max_tokens
            &&& n <= choices.len()
            &&& g.tokens == choices.take(n)
            &&& !g.tokens.contains(eos)
            &&& g.stopped ==> n < choices.len() && choices[n] == eos
            &&& g.unfinished(max_tokens) ==> n == choices.len()
        }),
    decreases choices.len(),
{
    if choices.len() > 0 {
        let front = choices.drop_last();
        law_generation_is_prefix(eos, max_tokens, front);
        let g = after_choices(eos, max_tokens, front);
        let h = after_choices(eos, max_tokens, choices);
        let n = g.tokens.len() as int;
        assert(front.take(n) =~= choices.take(n));
        if g.unfinished(max_tokens) && choices.last() != eos {
            assert(h.tokens =~= choices.take(n + 1));
            assert forall|k: int| 0 <= k < h.tokens.len() implies h.tokens[k] != eos by {
                if k < n {
                    assert(g.tokens.contains(g.tokens[k]));
                }
            }
        }
    } else {
        assert(choices.take(0) =~= Seq::empty());
    }
}

// Speculation

/// Draft tokens by their scores, the greatest first.
pub fn draft_tokens(logits: &[u32], count: usize) -> (r: Vec<i32>)
    ensures
        r@ == Seq::new(
            picks(logits@, count as nat).len(),
            |i: int| picks(logits@, count as nat)[i] as i32,
        ),
        r@.len() <= count,
{
    proof {
        lemma_picks_len(logits@, count as nat);
    }
    let list = pick_many(logits, count);
    let ghost spec = picks(logits@, count as nat);
    let mut r: Vec<i32> = Vec::new();
    let mut i: usize = 0;
    assert(list@.len() == spec.len());
    while i < list.len()
        invariant
            i <= list@.len(),
            spec == Seq::new(list@.len(), |k: int| list@[k] as int),
            r@ =~= Seq::new(i as nat, |k: int| spec[k] as i32),
        decreases list@.len() - i,
    {
        assert(spec[i as int] == list@[i as int] as int);
        r.push(list[i] as i32);
        i = i + 1;
    }
    r
}

/// What a speculation has come to.
pub ghost struct SpeculationView {
    /// The drafts.
    pub drafts: Seq<i32>,
    /// How many drafts were confirmed.
    pub n_accepted: nat,
    /// Whether a draft was refused.
    pub refused: bool,
}

/// The confirmation of drafts, one choice of the model after the other.
#[derive(Debug)]
pub struct Speculation {
    /// The drafts.
    pub drafts: Vec<i32>,
    /// How many drafts were confirmed.
    pub n_accepted: usize,
    /// Whether a draft was refused.
    pub refused: bool,
}

impl View for Speculation {
    type V = SpeculationView;

    open spec fn view(&self) -> SpeculationView {
        SpeculationView {
            drafts: self.drafts@,
            n_accepted: self.n_accepted as nat,
            refused: self.refused,
        }
    }
}

impl SpeculationView {
    /// Another choice of the model is wanted.
    pub open spec fn unfinished(self) -> bool {
        !self.refused && self.n_accepted < self.drafts.len()
    }

    /// The next draft is the token that the model chose.
    pub open spec fn confirms(self, best: i32) -> bool {
        self.unfinished() && self.drafts[self.n_accepted as int] == best
    }

    /// The speculation after a choice of the model.
    pub open spec fn after(self, best: i32) -> SpeculationView {
        if !self.unfinished() {
            self
        } else if self.confirms(best) {
            SpeculationView { n_accepted: self.n_accepted + 1, ..self }
        } else {
            SpeculationView { refused: true, ..self }
        }
    }
}

/// The speculation after some choices of the model.
pub open spec fn after_checks(drafts: Seq<i32>, choices: Seq<i32>) -> SpeculationView
    decreases choices.len(),
{
    if choices.len() == 0 {
        SpeculationView { drafts, n_accepted: 0, refused: false }
    } else {
        after_checks(drafts, choices.drop_last()).after(choices.last())
    }
}

impl Speculation {
    /// No more drafts were confirmed than there are.
    pub open spec fn wf(&self) -> bool {
        self.n_accepted <= self.drafts@.len()
    }

    /// Start with no choice known.
    pub fn new(drafts: Vec<i32>) -> (r: Speculation)
        ensures
            r@ == (SpeculationView { drafts: drafts@, n_accepted: 0, refused: false }),
            r.wf(),
    {
        Speculation { drafts, n_accepted: 0, refused: false }
    }

    /// Check if another choice of the model is wanted.
    pub fn wants_more(&self) -> (r: bool)
        ensures
            r == self@.unfinished(),
    {
        !self.refused && self.n_accepted < self.drafts.len()
    }

    /// Hold the next draft against the choice of the model. A draft that was confirmed is to be fed.
    pub fn check(&mut self, best: i32) -> (confirmed: bool)
        requires
            old(self).wf(),
        ensures
            final(self).wf(),
            final(self)@ == old(self)@.after(best),
            confirmed == old(self)@.confirms(best),
    {
        let n: usize = self.drafts.len();
        if self.refused || self.n_accepted >= n {
            return false;
        }
        if self.drafts[self.n_accepted] == best {
            self.n_accepted = self.n_accepted + 1;
            return true;
        }
        self.refused = true;
        false
    }

    /// List the drafts that were confirmed.
    pub fn accepted(&self) -> (r: Vec<i32>)
        requires
            self.wf(),
        ensures
            r@ == self.drafts@.take(self.n_accepted as int),
    {
        let mut r: Vec<i32> = Vec::new();
        let mut i: usize = 0;
        while i < self.n_accepted
            invariant
                i <= self.n_accepted <= self.drafts@.len(),
                r@ =~= self.drafts@.take(i as int),
            decreases self.n_accepted - i,
        {
            r.push(self.drafts[i]);
            i = i + 1;
        }
        r
    }
}

/// The drafts that are confirmed are those that the model would have chosen itself: the longest
/// beginning that the drafts share with the choices of the model.
pub proof fn law_confirmed_drafts_are_choices(drafts: Seq<i32>, choices: Seq<i32>)
    ensures
        after_checks(drafts, choices).drafts == drafts,
        after_checks(drafts, choices).n_accepted == common_prefix(drafts, choices),
        after_checks(drafts, choices).unfinished() ==> common_prefix(drafts, choices)
            == choices.len(),
        after_checks(drafts, choices).refused ==> common_prefix(drafts, choices) < choices.len(),
    decreases choices.len(),
{
    lemma_agree_until(drafts, choices, 0);
    if choices.len() > 0 {
        let front = choices.drop_last();
        law_confirmed_drafts_are_choices(drafts, front);
        lemma_agree_until(drafts, front, 0);
        let n = common_prefix(drafts, front);
        let m = common_prefix(drafts, choices);
        law_common_prefix_is_longest(drafts, choices, n);
        assert(drafts.take(n as int) =~= choices.take(n as int));
        if m > n {
            assert(m <= n + 1 || n + 1 < choices.len());
            if n < drafts.len() && n < front.len() {
                assert(drafts[n as int] == choices[n as int]);
                assert(front[n as int] == choices[n as int]);
            }
        } else if n < front.len() && n < drafts.len() {
            assert(front[n as int] == choices[n as int]);
        } else if n == front.len() && n < drafts.len() && drafts[n as int] == choices[n as int] {
            law_common_prefix_is_longest(drafts, choices, n + 1);
            assert(drafts.take(n as int + 1) =~= choices.take(n as int + 1));
        }
    }
}

} // verus!
