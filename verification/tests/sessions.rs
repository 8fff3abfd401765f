//! Sessions, generation and speculation, with a stand-in for the forward pass.
use ds4::constants::Dims;
use ds4::session::{draft_tokens, Generation, Session, Speculation, Step};

fn session() -> Session {
    Session::new(&Dims::tiny(), 4096)
}

/// A stand-in for the forward pass: it writes a row to the cache, and scores the tokens by what was
/// fed so far.
fn feed(s: &mut Session, step: Step) {
    assert_eq!(step.pos, s.tokens.len());
    assert_eq!(step.fresh, step.pos == 0);
    let before = if step.fresh { 0 } else { s.hc[0] };
    s.kv_cache.push_raw(0, &[(step.token as f32).to_bits(); 16]);
    let state = before.wrapping_mul(31).wrapping_add(step.token as u32 + 1);
    let mut logits = vec![0u32; 256];
    for (i, l) in logits.iter_mut().enumerate() {
        *l = (((i as u32).wrapping_mul(state) % 1009) as f32).to_bits();
    }
    s.record(step.token, logits, vec![state; 256]);
}

fn sync(s: &mut Session, prompt: &[i32]) {
    let plan = s.begin_sync(prompt);
    for &step in plan.steps.iter() {
        feed(s, step);
    }
    s.end_sync(&plan);
}

fn eval(s: &mut Session, token: i32) {
    let step = s.next_step(token);
    feed(s, step);
}

fn generate(s: &mut Session, eos: i32, max_tokens: usize) -> Vec<i32> {
    let mut g = Generation::new(eos, max_tokens);
    while g.wants_more() {
        let token = s.argmax();
        if g.offer(token) {
            eval(s, token);
        }
    }
    g.tokens
}

#[test]
fn test_session_sync_common_prefix() {
    let mut session = session();
    let prompt1: Vec<i32> = (0..5).collect();
    sync(&mut session, &prompt1);

    let prompt2: Vec<i32> = (0..6).collect();
    let common = session.common_prefix_len(&prompt2);
    assert_eq!(common, 5, "Should detect common prefix of 5 tokens");

    sync(&mut session, &prompt2);
    assert_eq!(session.n_tokens(), 6);

    let prompt3: Vec<i32> = (100..105).collect();
    sync(&mut session, &prompt3);
    assert_eq!(session.n_tokens(), 5);
    assert_eq!(session.kv_cache.layers[0].n_raw, 5);
}

#[test]
fn test_session_invalidate() {
    let mut session = session();
    let prompt: Vec<i32> = (0..5).collect();
    sync(&mut session, &prompt);

    assert_eq!(session.n_tokens(), 5);

    session.invalidate();
    assert_eq!(session.n_tokens(), 0);
    assert!(
        session.logits.iter().all(|&v| f32::from_bits(v) == 0.0),
        "Logits should be zero after invalidate (fresh session state)"
    );
    assert_eq!(session.kv_cache.layers[0].n_raw, 0);
}

#[test]
fn test_session_prefill_and_extend() {
    let mut s1 = session();
    let prompt: Vec<i32> = (0..6).collect();
    sync(&mut s1, &prompt);

    let mut s2 = session();
    let prefix: Vec<i32> = (0..3).collect();
    sync(&mut s2, &prefix);
    eval(&mut s2, 3);
    eval(&mut s2, 4);
    eval(&mut s2, 5);

    assert_eq!(
        s1.argmax(),
        s2.argmax(),
        "Session state should be equivalent after prefill vs extend"
    );
    assert_eq!(s1.tokens, s2.tokens);
    assert_eq!(s1.kv_cache.layers[0].raw_kv, s2.kv_cache.layers[0].raw_kv);
}

#[test]
fn test_generation_with_eos_stop() {
    let mut session = session();
    let prompt: Vec<i32> = (0..3).collect();
    sync(&mut session, &prompt);

    let generated = generate(&mut session, -1, 5);
    assert_eq!(generated.len(), 5, "Should generate exactly max_tokens when no EOS");
}

#[test]
fn test_autoregressive_generation_runs() {
    let mut session = session();
    let prompt: Vec<i32> = (0..5).collect();
    sync(&mut session, &prompt);

    let generated = generate(&mut session, -1, 10);
    assert_eq!(generated.len(), 10, "Should generate exactly 10 tokens");
    for &t in &generated {
        assert!(t >= 0 && t < 256, "Generated token {} out of range", t);
    }
    assert_eq!(session.n_tokens(), 15);
}

#[test]
fn generation_stops_at_the_end_token() {
    let mut g = Generation::new(7, 5);
    assert!(g.wants_more());
    assert!(g.offer(3));
    assert!(g.offer(4));
    assert!(!g.offer(7));
    assert!(!g.wants_more());
    assert!(!g.offer(3));
    assert_eq!(g.tokens, vec![3, 4]);
    assert!(!Generation::new(7, 0).wants_more());
}

#[test]
fn plans_say_what_to_feed() {
    let mut s = session();
    let plan = s.begin_sync(&[]);
    assert!(plan.steps.is_empty() && !plan.rebuilt);
    let plan = s.begin_sync(&[5, 6]);
    assert!(plan.rebuilt);
    assert_eq!(
        plan.steps,
        vec![
            Step { token: 5, pos: 0, fresh: true },
            Step { token: 6, pos: 1, fresh: false },
        ]
    );
    sync(&mut s, &[5, 6, 7]);
    // The session is at this prompt already.
    let plan = s.begin_sync(&[5, 6, 7]);
    assert!(plan.steps.is_empty() && !plan.rebuilt);
    assert_eq!(s.tokens, vec![5, 6, 7]);
    // An empty prompt leaves it alone.
    let plan = s.begin_sync(&[]);
    assert!(plan.steps.is_empty() && !plan.rebuilt);
    assert_eq!(s.tokens, vec![5, 6, 7]);
    // What stands behind the shared tokens is forgotten.
    let plan = s.begin_sync(&[5, 9]);
    assert!(!plan.rebuilt);
    assert_eq!(plan.steps, vec![Step { token: 9, pos: 1, fresh: false }]);
    assert_eq!(s.tokens, vec![5]);
}

#[test]
fn a_shorter_prompt_is_reached_too() {
    let mut s = session();
    sync(&mut s, &[5, 6, 7]);
    let plan = s.begin_sync(&[5, 6]);
    assert!(plan.rebuilt);
    assert_eq!(
        plan.steps,
        vec![
            Step { token: 5, pos: 0, fresh: true },
            Step { token: 6, pos: 1, fresh: false },
        ]
    );
    assert!(s.tokens.is_empty());
    let mut other = session();
    sync(&mut s, &[5, 6]);
    sync(&mut other, &[5, 6]);
    assert_eq!(s.tokens, vec![5, 6]);
    assert_eq!(s.logits, other.logits);
    assert_eq!(s.kv_cache.layers[0].raw_kv, other.kv_cache.layers[0].raw_kv);
}

#[test]
fn rewinding_forgets_tokens() {
    let mut s = session();
    sync(&mut s, &[1, 2, 3]);
    s.rewind(9);
    assert_eq!(s.tokens, vec![1, 2, 3]);
    s.rewind(1);
    assert_eq!(s.tokens, vec![1]);
}

#[test]
fn the_greatest_score_wins() {
    let mut s = session();
    assert_eq!(s.argmax(), 0);
    let mut logits = vec![(-2.0f32).to_bits(); 256];
    logits[9] = (-1.0f32).to_bits();
    logits[40] = (-1.0f32).to_bits();
    logits[3] = f32::NAN.to_bits();
    s.record(0, logits, vec![0; 256]);
    assert_eq!(s.argmax(), 9);
}

#[test]
fn drafts_are_the_greatest_scores() {
    let logits: Vec<u32> =
        [1.0f32, 4.0, f32::NEG_INFINITY, 4.0, 2.0].iter().map(|x| x.to_bits()).collect();
    assert_eq!(draft_tokens(&logits, 3), vec![1, 3, 4]);
    assert_eq!(draft_tokens(&logits, 9), vec![1, 3, 4, 0]);
}

#[test]
fn drafts_are_confirmed_until_one_is_refused() {
    let mut s = Speculation::new(vec![4, 5, 6]);
    assert!(s.wants_more());
    assert!(s.check(4));
    assert!(!s.check(9));
    assert!(!s.wants_more());
    assert!(!s.check(5));
    assert_eq!(s.accepted(), vec![4]);
    let mut s = Speculation::new(vec![4]);
    assert!(s.check(4));
    assert!(!s.wants_more());
    assert_eq!(s.accepted(), vec![4]);
    assert!(!Speculation::new(vec![]).wants_more());
}

#[test]
fn a_rebuilt_session_clears_its_windows() {
    let dims = Dims { n_layer: 4, ..Dims::tiny() };
    let mut s = Session::new(&dims, 64);
    let plan = s.begin_sync(&[1, 2]);
    let row = vec![3u32; 32];
    s.kv_cache.layers[2].feed_attn(&dims, 0, &row, &row);
    s.kv_cache.layers[2].feed_attn(&dims, 1, &row, &row);
    s.kv_cache.layers[2].feed_attn(&dims, 2, &row, &row);
    s.end_sync(&plan);
    assert_eq!(s.kv_cache.layers[2].attn_state_kv[5 * 32..6 * 32], [3; 32]);
    assert_eq!(s.kv_cache.layers[2].attn_state_kv[6 * 32..7 * 32], [0; 32]);
}

#[test]
fn speculation_leaves_no_trace() {
    let mut plain = session();
    sync(&mut plain, &[3, 4]);
    let mut s = session();
    sync(&mut s, &[3, 4]);
    // Drafting writes to the cache, and the checkpoint undoes it.
    let checkpoint = s.kv_cache.checkpoint_layers(1);
    s.kv_cache.push_raw(0, &[9.0f32.to_bits(); 16]);
    s.kv_cache.restore_layers(&checkpoint);
    eval(&mut s, 8);
    eval(&mut plain, 8);
    // The first draft is what the model would choose, the second is not.
    let best = s.argmax();
    let mut speculation = Speculation::new(vec![best, -1]);
    while speculation.wants_more() {
        let choice = s.argmax();
        if speculation.check(choice) {
            eval(&mut s, choice);
        }
    }
    assert_eq!(speculation.accepted(), vec![best]);
    assert_eq!(plain.argmax(), best);
    eval(&mut plain, best);
    assert_eq!(s.tokens, vec![3, 4, 8, best]);
    assert_eq!(s.tokens, plain.tokens);
    assert_eq!(s.logits, plain.logits);
    assert_eq!(s.kv_cache.layers[0].raw_kv, plain.kv_cache.layers[0].raw_kv);
}
